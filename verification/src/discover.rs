//! Docker discovery: turning `docker ps` records into service entries.
//!
//! The remote calls themselves are made by the caller; this module decides
//! what to ask, reads what came back and builds the services.
use vstd::prelude::*;
use crate::text::{
    concat_str, concat3_str, lines_of, starts_with_chars, text_lines, trim_leading, trim_leading_chars, contains_chars, contains_text, find_text, first_occurrence, last_index,
    lemma_split_on_nonempty, parse_unsigned, parse_unsigned_chars, rfind_char, after_first, before_first, chars_equal, chars_of, is_alphanumeric_char, lowercase,
    lowercase_chars, slice_chars, split_chars, split_on, split_once_char, string_of, trim,
    trim_chars, alphanumeric, ascii_lower, is_ascii_alnum, is_ascii_char, is_ascii_text,
};
use crate::service::{copy_strings, texts, opt_text, QuickCommand, QuickCommandView, Service, ServiceView, quick_views};
use crate::ssh::opt_str_view;
use crate::json::{deref_opt, json_document, json_member, json_text, member_of, parse_json, text_of, Json};

verus! {

/// The texts of a list of character vectors.
pub open spec fn char_texts(v: Seq<Vec<char>>) -> Seq<Seq<char>> {
    v.map_values(|w: Vec<char>| w@)
}

/// Turns character vectors into strings.
pub fn strings_of(v: &Vec<Vec<char>>) -> (r: Vec<String>)
    ensures
        texts(r@) == char_texts(v@),
{
    let mut r: Vec<String> = Vec::new();
    let mut i: usize = 0;
    while i < v.len()
        invariant
            i <= v.len(),
            texts(r@) == char_texts(v@.take(i as int)),
        decreases v.len() - i,
    {
        let s = string_of(v[i].as_slice());
        assert(s@ == v@[i as int]@);
        let ghost prev = r@;
        r.push(s);
        assert(v@.take(i + 1) =~= v@.take(i as int).push(v@[i as int]));
        assert(texts(r@) =~= texts(prev).push(s@));
        i += 1;
        assert(texts(r@) =~= char_texts(v@.take(i as int)));
    }
    assert(v@.take(v.len() as int) =~= v@);
    r
}

/// Whether `x` is one of the texts in `list`.
pub fn list_contains(list: &Vec<Vec<char>>, x: &Vec<char>) -> (r: bool)
    ensures
        r == char_texts(list@).contains(x@),
{
    let mut i: usize = 0;
    while i < list.len()
        invariant
            i <= list.len(),
            forall|k: int| 0 <= k < i ==> list@[k]@ != x@,
        decreases list.len() - i,
    {
        if chars_equal(&list[i], x) {
            assert(char_texts(list@)[i as int] == x@);
            return true;
        }
        i += 1;
    }
    assert forall|k: int| 0 <= k < char_texts(list@).len() implies char_texts(list@)[k] != x@ by {
        assert(list@[k]@ != x@);
    }
    false
}

/// Character kept in a service id: letters, digits, `-` and `_` stay,
/// anything else becomes `-`.
pub open spec fn id_char(c: char) -> char {
    if alphanumeric(c) || c == '-' || c == '_' {
        c
    } else {
        '-'
    }
}

/// The service id made from a container name: unusual characters replaced,
/// then lower-cased.
pub open spec fn sanitised_id(s: Seq<char>) -> Seq<char> {
    lowercase(s.map_values(|c: char| id_char(c)))
}

/// The id character that an ASCII character becomes: letters lower-cased,
/// digits, `-` and `_` kept, anything else `-`.
pub open spec fn ascii_id_char(c: char) -> char {
    if is_ascii_alnum(c) {
        ascii_lower(c)
    } else if c == '-' || c == '_' {
        c
    } else {
        '-'
    }
}

/// The service id made from an ASCII container name.
pub open spec fn ascii_sanitised(s: Seq<char>) -> Seq<char> {
    s.map_values(|c: char| ascii_id_char(c))
}

/// A character that may stand in a sanitised id: `a`–`z`, `0`–`9`, `-`, `_`.
pub open spec fn is_id_char(c: char) -> bool {
    ('0' <= c <= '9') || ('a' <= c <= 'z') || c == '-' || c == '_'
}

/// The service id for a container name. For an ASCII name it is the name
/// with letters lower-cased and every character other than a letter,
/// digit, `-` or `_` replaced by `-`.
pub fn sanitise_id(s: &str) -> (r: String)
    ensures
        r@ == sanitised_id(s@),
        is_ascii_text(s@) ==> r@ == ascii_sanitised(s@),
{
    let v = chars_of(s);
    let mut mapped: Vec<char> = Vec::new();
    let mut i: usize = 0;
    while i < v.len()
        invariant
            i <= v.len(),
            v@ == s@,
            mapped@ == v@.take(i as int).map_values(|c: char| id_char(c)),
            is_ascii_text(v@) ==> forall|k: int|
                0 <= k < i ==> is_ascii_char(#[trigger] mapped@[k]) && ascii_lower(mapped@[k]) == ascii_id_char(v@[k]),
        decreases v.len() - i,
    {
        let c = v[i];
        let keep = is_alphanumeric_char(c) || c == '-' || c == '_';
        mapped.push(if keep { c } else { '-' });
        i += 1;
        assert(mapped@ =~= v@.take(i as int).map_values(|c: char| id_char(c)));
        proof {
            if is_ascii_text(v@) {
                assert(is_ascii_char(v@[i - 1]));
                assert(('A' as u32) == 65 && ('Z' as u32) == 90);
                if 'A' <= c && c <= 'Z' {
                    assert((((c as u32) + 32) as char) as u32 == (c as u32) + 32);
                }
            }
        }
    }
    assert(v@.take(v.len() as int) =~= v@);
    let low = lowercase_chars(&mapped);
    proof {
        if is_ascii_text(s@) {
            assert(is_ascii_text(mapped@));
            assert(low@ =~= ascii_sanitised(s@));
        }
    }
    string_of(low.as_slice())
}

/// Sanitising an ASCII name keeps its length, gives only the characters
/// `a`–`z`, `0`–`9`, `-` and `_`, and changes nothing when done again.
pub proof fn lemma_ascii_sanitise(s: Seq<char>)
    requires
        is_ascii_text(s),
    ensures
        ascii_sanitised(s).len() == s.len(),
        forall|i: int| 0 <= i < s.len() ==> is_id_char(#[trigger] ascii_sanitised(s)[i]),
        is_ascii_text(ascii_sanitised(s)),
        ascii_sanitised(ascii_sanitised(s)) == ascii_sanitised(s),
{
    let t = ascii_sanitised(s);
    assert(('A' as u32) == 65 && ('Z' as u32) == 90 && ('a' as u32) == 97 && ('z' as u32) == 122);
    assert forall|i: int| 0 <= i < s.len() implies is_id_char(#[trigger] t[i]) && is_ascii_char(t[i])
        && ascii_id_char(t[i]) == t[i] by {
        let c = s[i];
        if 'A' <= c <= 'Z' {
            assert((((c as u32) + 32) as char) as u32 == (c as u32) + 32);
        }
    }
    assert(ascii_sanitised(t) =~= t);
}

/// Key of a `key=value` label pair, trimmed.
pub open spec fn label_key(pair: Seq<char>) -> Seq<char> {
    trim(before_first(pair, '='))
}

/// Value of a `key=value` label pair, trimmed; empty when there is no `=`.
pub open spec fn label_value(pair: Seq<char>) -> Seq<char> {
    match after_first(pair, '=') {
        Some(rest) => trim(rest),
        None => Seq::empty(),
    }
}

/// The label pair names a stack: a Compose project (`com.docker.compose.project`)
/// or `rustboard.stack`, with a non-empty value.
pub open spec fn is_stack_label(pair: Seq<char>) -> bool {
    (label_key(pair) == "com.docker.compose.project"@ || label_key(pair) == "rustboard.stack"@)
        && label_value(pair).len() > 0
}

/// The label pair names a tag: a Compose project or `rustboard.tags`, with
/// a non-empty value.
pub open spec fn is_tag_label(pair: Seq<char>) -> bool {
    (label_key(pair) == "com.docker.compose.project"@ || label_key(pair) == "rustboard.tags"@)
        && label_value(pair).len() > 0
}

/// The stack names that the label pairs give, in order.
pub open spec fn label_stacks(pairs: Seq<Seq<char>>) -> Seq<Seq<char>>
    decreases pairs.len(),
{
    if pairs.len() == 0 {
        Seq::empty()
    } else {
        let r = label_stacks(pairs.drop_last());
        if is_stack_label(pairs.last()) {
            r.push(label_value(pairs.last()))
        } else {
            r
        }
    }
}

/// The last label among `pairs` is `rustboard.tags`: the pairs after it,
/// which hold no `=`, continue its comma-separated list.
pub open spec fn in_tag_list(pairs: Seq<Seq<char>>) -> bool
    decreases pairs.len(),
{
    if pairs.len() == 0 {
        false
    } else if after_first(pairs.last(), '=') is None {
        in_tag_list(pairs.drop_last())
    } else {
        label_key(pairs.last()) == "rustboard.tags"@
    }
}

/// The tags that the label pairs give, in order: the values of tag labels,
/// and each further non-empty item of a `rustboard.tags` list.
pub open spec fn label_tags(pairs: Seq<Seq<char>>) -> Seq<Seq<char>>
    decreases pairs.len(),
{
    if pairs.len() == 0 {
        Seq::empty()
    } else {
        let r = label_tags(pairs.drop_last());
        let p = pairs.last();
        if is_tag_label(p) {
            r.push(label_value(p))
        } else if after_first(p, '=') is None && in_tag_list(pairs.drop_last()) && trim(p).len() > 0 {
            r.push(trim(p))
        } else {
            r
        }
    }
}

/// `s` with every repeated text dropped, first occurrences kept in order.
pub open spec fn dedup(s: Seq<Seq<char>>) -> Seq<Seq<char>>
    decreases s.len(),
{
    if s.len() == 0 {
        s
    } else {
        let r = dedup(s.drop_last());
        if r.contains(s.last()) {
            r
        } else {
            r.push(s.last())
        }
    }
}

/// Reads a Docker label string `"key=val,key2=val2"`: the stacks are the
/// distinct values of `com.docker.compose.project` and `rustboard.stack`,
/// the tags the values of `com.docker.compose.project` and the items of the
/// comma-separated `rustboard.tags` list, in order.
pub fn parse_labels(labels: &str) -> (r: (Vec<String>, Vec<String>))
    ensures
        texts(r.0@) == dedup(label_stacks(split_on(labels@, ','))),
        texts(r.1@) == label_tags(split_on(labels@, ',')),
{
    let v = chars_of(labels);
    let pairs = split_chars(&v, ',');
    let ghost sp = split_on(labels@, ',');
    let compose = chars_of("com.docker.compose.project");
    let stack_key = chars_of("rustboard.stack");
    let tags_key = chars_of("rustboard.tags");
    let mut stacks: Vec<Vec<char>> = Vec::new();
    let mut tags: Vec<Vec<char>> = Vec::new();
    let mut in_list = false;
    let mut i: usize = 0;
    assert(sp.take(0) =~= Seq::<Seq<char>>::empty());
    while i < pairs.len()
        invariant
            i <= pairs.len() == sp.len(),
            forall|k: int| 0 <= k < pairs@.len() ==> #[trigger] pairs@[k]@ == sp[k],
            compose@ == "com.docker.compose.project"@,
            stack_key@ == "rustboard.stack"@,
            tags_key@ == "rustboard.tags"@,
            char_texts(tags@) == label_tags(sp.take(i as int)),
            char_texts(stacks@) == dedup(label_stacks(sp.take(i as int))),
            in_list == in_tag_list(sp.take(i as int)),
        decreases pairs.len() - i,
    {
        let pair = &pairs[i];
        let (before, after) = split_once_char(pair, '=');
        let has_eq = after.is_some();
        proof {
            if !has_eq {
                crate::text::lemma_no_separator(pair@, '=');
            }
        }
        let key = trim_chars(&before);
        let val = match after {
            Some(rest) => trim_chars(&rest),
            None => Vec::new(),
        };
        assert(sp.take(i + 1).drop_last() =~= sp.take(i as int));
        assert(sp.take(i + 1).last() == sp[i as int]);
        let ghost st = label_stacks(sp.take(i as int));
        assert(st.push(val@).drop_last() =~= st);
        let is_compose = chars_equal(&key, &compose);
        let is_tags = chars_equal(&key, &tags_key);
        if (is_compose || chars_equal(&key, &stack_key)) && val.len() > 0 {
            let known = list_contains(&stacks, &val);
            if !known {
                let val2 = slice_chars(&val, 0, val.len());
                assert(val@.subrange(0, val@.len() as int) =~= val@);
                let ghost prev = stacks@;
                stacks.push(val2);
                assert(char_texts(stacks@) =~= char_texts(prev).push(val@));
            }
        }
        if (is_compose || is_tags) && val.len() > 0 {
            tags.push(val);
        } else if !has_eq && in_list && key.len() > 0 {
            tags.push(key);
        }
        if has_eq {
            in_list = is_tags;
        }
        i += 1;
        assert(char_texts(tags@) =~= label_tags(sp.take(i as int)));
        assert(char_texts(stacks@) =~= dedup(label_stacks(sp.take(i as int))));
    }
    assert(sp.take(sp.len() as int) =~= sp);
    (strings_of(&stacks), strings_of(&tags))
}

/// The image names that a discovered container is tagged with when its
/// image name contains them.
pub open spec fn known_image_tags() -> Seq<Seq<char>> {
    seq!["nginx"@, "redis"@, "postgres"@, "mysql"@, "mongodb"@, "rabbitmq"@, "kafka"@, "zookeeper"@, "elasticsearch"@, "kibana"@, "grafana"@, "prometheus"@, "traefik"@, "caddy"@, "php"@, "node"@, "python"@, "rust"@, "go"@, "java"@, "dotnet"@]
}

fn known_image_tag_list() -> (v: Vec<Vec<char>>)
    ensures
        char_texts(v@) == known_image_tags(),
{
    let mut v: Vec<Vec<char>> = Vec::new();
    v.push(chars_of("nginx"));
    v.push(chars_of("redis"));
    v.push(chars_of("postgres"));
    v.push(chars_of("mysql"));
    v.push(chars_of("mongodb"));
    v.push(chars_of("rabbitmq"));
    v.push(chars_of("kafka"));
    v.push(chars_of("zookeeper"));
    v.push(chars_of("elasticsearch"));
    v.push(chars_of("kibana"));
    v.push(chars_of("grafana"));
    v.push(chars_of("prometheus"));
    v.push(chars_of("traefik"));
    v.push(chars_of("caddy"));
    v.push(chars_of("php"));
    v.push(chars_of("node"));
    v.push(chars_of("python"));
    v.push(chars_of("rust"));
    v.push(chars_of("go"));
    v.push(chars_of("java"));
    v.push(chars_of("dotnet"));
    assert(char_texts(v@) =~= known_image_tags());
    v
}

/// The image's base name: before the first `:`, after the last `/`.
pub open spec fn image_base(image: Seq<char>) -> Seq<char> {
    split_on(split_on(image, ':')[0], '/').last()
}

/// The names among `names` that occur in `base`, in their order.
pub open spec fn names_within(base: Seq<char>, names: Seq<Seq<char>>) -> Seq<Seq<char>>
    decreases names.len(),
{
    if names.len() == 0 {
        Seq::empty()
    } else {
        let r = names_within(base, names.drop_last());
        if contains_text(base, names.last()) {
            r.push(names.last())
        } else {
            r
        }
    }
}

/// Guesses tags from an image name such as `nginx:stable-alpine`: each
/// known name that the lower-cased base name contains.
pub fn infer_tags_from_image(image: &str) -> (r: Vec<String>)
    ensures
        texts(r@) == names_within(lowercase(image_base(image@)), known_image_tags()),
        is_ascii_text(image@) ==> texts(r@) == names_within(
            image_base(image@).map_values(|c: char| ascii_lower(c)),
            known_image_tags(),
        ),
{
    let v = chars_of(image);
    let by_colon = split_chars(&v, ':');
    proof {
        lemma_split_on_nonempty(image@, ':');
    }
    let by_slash = split_chars(&by_colon[0], '/');
    proof {
        lemma_split_on_nonempty(by_colon@[0]@, '/');
        if is_ascii_text(image@) {
            crate::text::lemma_split_on_ascii(image@, ':');
            assert(is_ascii_text(split_on(image@, ':')[0]));
            crate::text::lemma_split_on_ascii(by_colon@[0]@, '/');
            let pieces = split_on(by_colon@[0]@, '/');
            assert(is_ascii_text(pieces[pieces.len() - 1]));
        }
    }
    let base = &by_slash[by_slash.len() - 1];
    let low = lowercase_chars(base);
    let known = known_image_tag_list();
    let ghost names = known_image_tags();
    let mut found: Vec<Vec<char>> = Vec::new();
    let mut i: usize = 0;
    assert(names.take(0) =~= Seq::<Seq<char>>::empty());
    while i < known.len()
        invariant
            i <= known.len() == names.len(),
            char_texts(known@) == names,
            low@ == lowercase(image_base(image@)),
            char_texts(found@) == names_within(low@, names.take(i as int)),
        decreases known.len() - i,
    {
        assert(names.take(i + 1).drop_last() =~= names.take(i as int));
        assert(names[i as int] == known@[i as int]@);
        if contains_chars(&low, &known[i]) {
            let k = slice_chars(&known[i], 0, known[i].len());
            assert(known@[i as int]@.subrange(0, known@[i as int]@.len() as int) =~= known@[i as int]@);
            let ghost prev = found@;
            found.push(k);
            assert(char_texts(found@) =~= char_texts(prev).push(names[i as int]));
        }
        i += 1;
    }
    assert(names.take(names.len() as int) =~= names);
    strings_of(&found)
}

/// The host port of one `docker ps` port mapping such as
/// `0.0.0.0:8080->80/tcp`: the digits between the last `:` and the first
/// `->`, when they form a `u16`.
pub open spec fn mapping_host_port(segment: Seq<char>) -> Option<u16> {
    let t = trim(segment);
    match first_occurrence(t, "->"@) {
        Some(a) => match last_index(t.take(a), ':') {
            Some(c) => match parse_unsigned(t.take(a).skip(c + 1), 65535) {
                Some(p) => Some(p as u16),
                None => None,
            },
            None => None,
        },
        None => None,
    }
}

/// The first host port among the port mappings.
pub open spec fn first_host_port(segments: Seq<Seq<char>>) -> Option<u16>
    decreases segments.len(),
{
    if segments.len() == 0 {
        None
    } else {
        match mapping_host_port(segments[0]) {
            Some(p) => Some(p),
            None => first_host_port(segments.drop_first()),
        }
    }
}

/// The host port of a `Ports` text comes from its earliest segment that
/// has one: the result is the port of some segment, every segment before
/// it has none, and there is no result only when no segment has a port.
/// In particular, a first segment with a host port decides the result
/// whatever the later segments hold.
pub proof fn lemma_first_host_port_is_earliest(segments: Seq<Seq<char>>)
    ensures
        match first_host_port(segments) {
            Some(p) => exists|i: int|
                0 <= i < segments.len() && mapping_host_port(#[trigger] segments[i]) == Some(p) && forall|j: int|
                    0 <= j < i ==> mapping_host_port(#[trigger] segments[j]) is None,
            None => forall|i: int| 0 <= i < segments.len() ==> mapping_host_port(#[trigger] segments[i]) is None,
        },
        segments.len() > 0 && mapping_host_port(segments[0]) is Some ==> first_host_port(segments)
            == mapping_host_port(segments[0]),
    decreases segments.len(),
{
    if segments.len() > 0 {
        let rest = segments.drop_first();
        lemma_first_host_port_is_earliest(rest);
        if mapping_host_port(segments[0]) is None {
            match first_host_port(rest) {
                Some(p) => {
                    let k = choose|k: int|
                        0 <= k < rest.len() && mapping_host_port(#[trigger] rest[k]) == Some(p) && forall|j: int|
                            0 <= j < k ==> mapping_host_port(#[trigger] rest[j]) is None;
                    assert(segments[k + 1] == rest[k]);
                    assert forall|j: int| 0 <= j < k + 1 implies mapping_host_port(#[trigger] segments[j]) is None by {
                        if j > 0 {
                            assert(segments[j] == rest[j - 1]);
                        }
                    }
                },
                None => {
                    assert forall|i: int| 0 <= i < segments.len() implies mapping_host_port(#[trigger] segments[i]) is None by {
                        if i > 0 {
                            assert(segments[i] == rest[i - 1]);
                        }
                    }
                },
            }
        } else {
            assert(mapping_host_port(segments[0]) is Some);
        }
    }
}

fn mapping_host_port_exec(segment: &Vec<char>) -> (r: Option<u16>)
    ensures
        r == mapping_host_port(segment@),
{
    let t = trim_chars(segment);
    let arrow = chars_of("->");
    match find_text(&t, &arrow) {
        Some(a) => {
            assert(first_occurrence(t@, arrow@) == Some(a as int));
            let left = slice_chars(&t, 0, a);
            assert(t@.subrange(0, a as int) =~= t@.take(a as int));
            match rfind_char(&left, ':') {
                Some(c) => {
                    assert(last_index(left@, ':') == Some(c as int));
                    let port_text = slice_chars(&left, c + 1, left.len());
                    assert(left@.subrange(c + 1, left@.len() as int) =~= left@.skip(c + 1));
                    match parse_unsigned_chars(&port_text, 65535) {
                        Some(p) => Some(p as u16),
                        None => None,
                    }
                },
                None => None,
            }
        },
        None => None,
    }
}

/// The first exposed host port in Docker's `Ports` field, for instance
/// `8080` in `"0.0.0.0:8080->80/tcp, 443/tcp"`.
pub fn parse_first_host_port(ports: &str) -> (r: Option<u16>)
    ensures
        r == first_host_port(split_on(ports@, ',')),
{
    let v = chars_of(ports);
    let segments = split_chars(&v, ',');
    let ghost sp = split_on(ports@, ',');
    let mut i: usize = 0;
    assert(sp.skip(0) =~= sp);
    while i < segments.len()
        invariant
            i <= segments.len() == sp.len(),
            forall|k: int| 0 <= k < segments@.len() ==> #[trigger] segments@[k]@ == sp[k],
            sp == split_on(ports@, ','),
            first_host_port(sp) == first_host_port(sp.skip(i as int)),
        decreases segments.len() - i,
    {
        assert(sp.skip(i as int)[0] == sp[i as int]);
        assert(sp.skip(i as int).drop_first() =~= sp.skip(i + 1));
        if let Some(p) = mapping_host_port_exec(&segments[i]) {
            assert(mapping_host_port(sp[i as int]) == Some(p));
            assert(mapping_host_port(sp.skip(i as int)[0]) == Some(p));
            assert(first_host_port(sp.skip(i as int)) == Some(p));
            return Some(p);
        }
        i += 1;
    }
    None
}


/// One line of `docker ps --format '{{json .}}'`, field by field.
pub struct DockerPsEntry {
    pub id: Option<String>,
    pub names: Option<String>,
    pub image: Option<String>,
    pub ports: Option<String>,
    pub status: Option<String>,
    pub labels: Option<String>,
    pub state: Option<String>,
}

/// An optional text, or the empty text.
pub open spec fn text_or_empty(o: Option<String>) -> Seq<char> {
    match o {
        Some(s) => s@,
        None => Seq::empty(),
    }
}

fn chars_or_empty(o: &Option<String>) -> (r: Vec<char>)
    ensures
        r@ == text_or_empty(*o),
{
    match o {
        Some(s) => chars_of(s.as_str()),
        None => Vec::new(),
    }
}

/// The command that lists every container, one JSON object per line.
pub fn docker_ps_command() -> (r: String)
    ensures
        r@ == "docker ps -a --format '{{json .}}'"@,
{
    "docker ps -a --format '{{json .}}'".to_string()
}

/// The non-empty trimmed lines of `docker ps` output.
pub open spec fn record_lines(lines: Seq<Seq<char>>) -> Seq<Seq<char>>
    decreases lines.len(),
{
    if lines.len() == 0 {
        Seq::empty()
    } else {
        let r = record_lines(lines.drop_last());
        let t = trim(lines.last());
        if t.len() > 0 {
            r.push(t)
        } else {
            r
        }
    }
}

/// The lines of `docker ps` output worth parsing: each trimmed, empty ones left out.
pub fn docker_ps_lines(raw: &str) -> (r: Vec<String>)
    ensures
        texts(r@) == record_lines(text_lines(raw@)),
{
    let v = chars_of(raw);
    let lines = lines_of(&v);
    let ghost ls = text_lines(raw@);
    let mut out: Vec<Vec<char>> = Vec::new();
    let mut i: usize = 0;
    assert(ls.take(0) =~= Seq::<Seq<char>>::empty());
    while i < lines.len()
        invariant
            i <= lines.len() == ls.len(),
            forall|k: int| 0 <= k < lines@.len() ==> #[trigger] lines@[k]@ == ls[k],
            char_texts(out@) == record_lines(ls.take(i as int)),
        decreases lines.len() - i,
    {
        assert(ls.take(i + 1).drop_last() =~= ls.take(i as int));
        let t = trim_chars(&lines[i]);
        if t.len() > 0 {
            let ghost prev = out@;
            out.push(t);
            assert(char_texts(out@) =~= char_texts(prev).push(trim(ls[i as int])));
        }
        i += 1;
    }
    assert(ls.take(ls.len() as int) =~= ls);
    strings_of(&out)
}

/// The container name in Docker's `Names` field: the first of the
/// comma-separated names, without leading `/`.
pub open spec fn container_name_of(names: Option<String>) -> Seq<char> {
    trim_leading(split_on(text_or_empty(names), ',')[0], '/')
}

/// The service status for a container: its `State` when known
/// (`running`; `exited` and `dead` become `stopped`), otherwise whether its
/// `Status` text begins with `up`.
pub open spec fn container_status(state: Seq<char>, status: Seq<char>) -> Seq<char> {
    if state == "running"@ {
        "running"@
    } else if state == "exited"@ || state == "dead"@ {
        "stopped"@
    } else if state.len() > 0 {
        state
    } else if "up"@.is_prefix_of(lowercase(status)) {
        "running"@
    } else {
        "stopped"@
    }
}

fn container_status_exec(state: &Vec<char>, status: &Vec<char>) -> (r: String)
    ensures
        r@ == container_status(state@, status@),
{
    let running = chars_of("running");
    let exited = chars_of("exited");
    let dead = chars_of("dead");
    if chars_equal(state, &running) {
        "running".to_string()
    } else if chars_equal(state, &exited) || chars_equal(state, &dead) {
        "stopped".to_string()
    } else if state.len() > 0 {
        string_of(state.as_slice())
    } else {
        let low = lowercase_chars(status);
        let up = chars_of("up");
        if starts_with_chars(&low, &up) {
            "running".to_string()
        } else {
            "stopped".to_string()
        }
    }
}

/// What a container's `docker ps` record decides before any inspect call.
pub struct ContainerPlan {
    pub id: String,
    pub container_name: String,
    pub image: String,
    pub stacks: Vec<String>,
    pub tags: Vec<String>,
    pub port: Option<u16>,
    pub status: String,
    pub short_id: String,
}

/// The plan made from a `docker ps` record, when the container is kept.
pub open spec fn plan_matches(p: ContainerPlan, e: DockerPsEntry) -> bool {
    let name = container_name_of(e.names);
    let labels = split_on(text_or_empty(e.labels), ',');
    &&& p.id@ == sanitised_id(name)
    &&& p.container_name@ == name
    &&& p.image@ == text_or_empty(e.image)
    &&& texts(p.stacks@) == dedup(label_stacks(labels))
    &&& texts(p.tags@) == label_tags(labels) + names_within(
        lowercase(image_base(text_or_empty(e.image))),
        known_image_tags(),
    )
    &&& p.port == first_host_port(split_on(text_or_empty(e.ports), ','))
    &&& p.status@ == container_status(text_or_empty(e.state), text_or_empty(e.status))
    &&& p.short_id@ == trim(text_or_empty(e.id))
}

/// Decides what a `docker ps` record becomes: nothing when its container has
/// no name or its id is already taken, otherwise a plan whose id is the
/// sanitised container name.
pub fn plan_container(entry: &DockerPsEntry, existing_ids: &Vec<String>) -> (r: Option<ContainerPlan>)
    ensures
        r is None <==> (container_name_of(entry.names).len() == 0 || texts(existing_ids@).contains(
            sanitised_id(container_name_of(entry.names)),
        )),
        r matches Some(p) ==> plan_matches(p, *entry),
{
    let raw_name = chars_or_empty(&entry.names);
    let parts = split_chars(&raw_name, ',');
    proof {
        lemma_split_on_nonempty(raw_name@, ',');
    }
    let name_chars = trim_leading_chars(&parts[0], '/');
    assert(name_chars@ == container_name_of(entry.names));
    if name_chars.len() == 0 {
        return None;
    }
    let container_name = string_of(name_chars.as_slice());
    let id = sanitise_id(container_name.as_str());
    assert(id@ == sanitised_id(container_name_of(entry.names)));
    let mut k: usize = 0;
    while k < existing_ids.len()
        invariant
            k <= existing_ids.len(),
            forall|j: int| 0 <= j < k ==> existing_ids@[j]@ != id@,
            id@ == sanitised_id(container_name_of(entry.names)),
        decreases existing_ids.len() - k,
    {
        if existing_ids[k] == id {
            assert(texts(existing_ids@)[k as int] == id@);
            return None;
        }
        k += 1;
    }
    assert(!texts(existing_ids@).contains(id@)) by {
        assert forall|j: int| 0 <= j < texts(existing_ids@).len() implies texts(existing_ids@)[j] != id@ by {
            assert(existing_ids@[j]@ != id@);
        }
    }
    let image_chars = chars_or_empty(&entry.image);
    let image = string_of(image_chars.as_slice());
    let label_chars = chars_or_empty(&entry.labels);
    let labels = string_of(label_chars.as_slice());
    let (stacks, mut tags) = parse_labels(labels.as_str());
    let inferred = infer_tags_from_image(image.as_str());
    let ghost t0 = tags@;
    let mut j: usize = 0;
    while j < inferred.len()
        invariant
            j <= inferred.len(),
            tags@ == t0 + inferred@.take(j as int),
        decreases inferred.len() - j,
    {
        tags.push(inferred[j].clone());
        j += 1;
        assert(inferred@.take(j as int) =~= inferred@.take(j - 1).push(inferred@[j - 1]));
    }
    assert(inferred@.take(inferred.len() as int) =~= inferred@);
    assert(texts(tags@) =~= texts(t0) + texts(inferred@));
    let port_chars = chars_or_empty(&entry.ports);
    let ports = string_of(port_chars.as_slice());
    let port = parse_first_host_port(ports.as_str());
    let state = chars_or_empty(&entry.state);
    let status_text = chars_or_empty(&entry.status);
    let status = container_status_exec(&state, &status_text);
    let id_chars = chars_or_empty(&entry.id);
    let short = trim_chars(&id_chars);
    let short_id = string_of(short.as_slice());
    Some(ContainerPlan {
        id,
        container_name,
        image,
        stacks,
        tags,
        port,
        status,
        short_id,
    })
}


/// The service id a `docker ps` record asks for.
pub open spec fn entry_id(e: DockerPsEntry) -> Seq<char> {
    sanitised_id(container_name_of(e.names))
}

/// The service ids the records ask for, in order.
pub open spec fn entry_ids(entries: Seq<DockerPsEntry>) -> Seq<Seq<char>> {
    entries.map_values(|e: DockerPsEntry| entry_id(e))
}

/// The records a discovery keeps, in order: each has a container name and
/// an id that is neither among `taken` nor the id of an earlier kept record.
pub open spec fn kept_entries(entries: Seq<DockerPsEntry>, taken: Seq<Seq<char>>) -> Seq<DockerPsEntry>
    decreases entries.len(),
{
    if entries.len() == 0 {
        Seq::empty()
    } else {
        let k = kept_entries(entries.drop_last(), taken);
        let e = entries.last();
        if container_name_of(e.names).len() > 0 && !(taken + entry_ids(k)).contains(entry_id(e)) {
            k.push(e)
        } else {
            k
        }
    }
}

/// The kept records ask for pairwise distinct ids, none of them taken.
pub proof fn lemma_kept_ids_distinct(entries: Seq<DockerPsEntry>, taken: Seq<Seq<char>>)
    ensures
        entry_ids(kept_entries(entries, taken)).no_duplicates(),
        forall|i: int|
            0 <= i < kept_entries(entries, taken).len() ==> !taken.contains(
                #[trigger] entry_ids(kept_entries(entries, taken))[i],
            ),
    decreases entries.len(),
{
    if entries.len() > 0 {
        lemma_kept_ids_distinct(entries.drop_last(), taken);
        let k = kept_entries(entries.drop_last(), taken);
        let e = entries.last();
        if container_name_of(e.names).len() > 0 && !(taken + entry_ids(k)).contains(entry_id(e)) {
            let ids = entry_ids(k.push(e));
            assert(ids =~= entry_ids(k).push(entry_id(e)));
            assert forall|a: int| 0 <= a < entry_ids(k).len() implies entry_ids(k)[a] != entry_id(e) by {
                assert((taken + entry_ids(k))[taken.len() + a] == entry_ids(k)[a]);
            }
            assert forall|a: int, b: int| 0 <= a < ids.len() && 0 <= b < ids.len() && a != b implies ids[a]
                != ids[b] by {
                if a < ids.len() - 1 && b < ids.len() - 1 {
                    assert(ids[a] == entry_ids(k)[a]);
                    assert(ids[b] == entry_ids(k)[b]);
                } else if a < ids.len() - 1 {
                    assert(ids[a] == entry_ids(k)[a]);
                } else {
                    assert(ids[b] == entry_ids(k)[b]);
                }
            }
            assert forall|i: int| 0 <= i < ids.len() implies !taken.contains(#[trigger] ids[i]) by {
                if i < ids.len() - 1 {
                    assert(ids[i] == entry_ids(k)[i]);
                } else {
                    if taken.contains(entry_id(e)) {
                        let j = choose|j: int| 0 <= j < taken.len() && taken[j] == entry_id(e);
                        assert((taken + entry_ids(k))[j] == entry_id(e));
                    }
                }
            }
        }
    }
}

/// Plans the containers of a whole `docker ps` listing, in order: a record
/// is kept when its container has a name and its id is neither in
/// `existing_ids` nor the id of an earlier kept record, so the planned ids
/// are pairwise distinct.
pub fn plan_containers(entries: &Vec<DockerPsEntry>, existing_ids: &Vec<String>) -> (r: Vec<ContainerPlan>)
    ensures
        r@.len() == kept_entries(entries@, texts(existing_ids@)).len(),
        forall|i: int|
            0 <= i < r@.len() ==> plan_matches(#[trigger] r@[i], kept_entries(entries@, texts(existing_ids@))[i]),
        forall|i: int, j: int| 0 <= i < r@.len() && 0 <= j < r@.len() && i != j ==> r@[i].id@ != r@[j].id@,
        forall|i: int| 0 <= i < r@.len() ==> !texts(existing_ids@).contains(#[trigger] r@[i].id@),
{
    let ghost t0 = texts(existing_ids@);
    let mut taken = copy_strings(existing_ids);
    let mut plans: Vec<ContainerPlan> = Vec::new();
    let mut i: usize = 0;
    assert(entries@.take(0) =~= Seq::<DockerPsEntry>::empty());
    assert(texts(taken@) =~= t0 + entry_ids(kept_entries(entries@.take(0), t0)));
    while i < entries.len()
        invariant
            i <= entries.len(),
            t0 == texts(existing_ids@),
            texts(taken@) == t0 + entry_ids(kept_entries(entries@.take(i as int), t0)),
            plans@.len() == kept_entries(entries@.take(i as int), t0).len(),
            forall|k: int|
                0 <= k < plans@.len() ==> plan_matches(
                    #[trigger] plans@[k],
                    kept_entries(entries@.take(i as int), t0)[k],
                ),
        decreases entries.len() - i,
    {
        let ghost kept = kept_entries(entries@.take(i as int), t0);
        assert(entries@.take(i + 1).drop_last() =~= entries@.take(i as int));
        assert(entries@.take(i + 1).last() == entries@[i as int]);
        match plan_container(&entries[i], &taken) {
            Some(p) => {
                let id = p.id.clone();
                let ghost prev_taken = taken@;
                taken.push(id);
                assert(texts(taken@) =~= texts(prev_taken).push(id@));
                assert(entry_ids(kept.push(entries@[i as int])) =~= entry_ids(kept).push(entry_id(entries@[i as int])));
                plans.push(p);
            },
            None => {},
        }
        i += 1;
    }
    assert(entries@.take(entries.len() as int) =~= entries@);
    let ghost kept = kept_entries(entries@, t0);
    proof {
        lemma_kept_ids_distinct(entries@, t0);
        assert forall|i: int| 0 <= i < plans@.len() implies #[trigger] plans@[i].id@ == entry_ids(kept)[i] by {
            assert(plan_matches(plans@[i], kept[i]));
        }
        assert forall|i: int, j: int| 0 <= i < plans@.len() && 0 <= j < plans@.len() && i != j implies plans@[i].id@
            != plans@[j].id@ by {
            assert(plans@[i].id@ == entry_ids(kept)[i]);
            assert(plans@[j].id@ == entry_ids(kept)[j]);
        }
        assert forall|i: int| 0 <= i < plans@.len() implies !t0.contains(#[trigger] plans@[i].id@) by {
            assert(plans@[i].id@ == entry_ids(kept)[i]);
        }
    }
    plans
}

/// The command that asks for a container's working directory as JSON.
pub fn working_dir_command(container_name: &str) -> (r: String)
    ensures
        r@ == "docker inspect --format '{{json .Config.WorkingDir}}' "@ + container_name@,
{
    concat_str("docker inspect --format '{{json .Config.WorkingDir}}' ", container_name)
}

/// The command that asks for a container's mounts as JSON.
pub fn mounts_command(container_name: &str) -> (r: String)
    ensures
        r@ == "docker inspect --format '{{json .Mounts}}' "@ + container_name@,
{
    concat_str("docker inspect --format '{{json .Mounts}}' ", container_name)
}

/// The application path a working-directory answer gives: a non-empty
/// JSON string (`null`, an empty string or anything else gives none).
pub open spec fn working_dir_path(doc: Option<Json>) -> Option<Seq<char>> {
    match doc {
        Some(Json::Text(p)) => if p@.len() > 0 {
            Some(p@)
        } else {
            None
        },
        _ => None,
    }
}

/// A mount destination that looks like an application folder.
pub open spec fn looks_like_app_dir(d: Seq<char>) -> bool {
    let l = lowercase(d);
    contains_text(l, "/app"@) || contains_text(l, "/www"@) || contains_text(l, "/srv"@)
        || contains_text(l, "/usr/src"@)
}

/// The first destination that looks like an application folder.
pub open spec fn first_app_dir(ds: Seq<Option<Seq<char>>>) -> Option<Seq<char>>
    decreases ds.len(),
{
    if ds.len() == 0 {
        None
    } else {
        match ds[0] {
            Some(d) => if looks_like_app_dir(d) {
                Some(d)
            } else {
                first_app_dir(ds.drop_first())
            },
            None => first_app_dir(ds.drop_first()),
        }
    }
}

/// The `"Destination"` of one mount, when it is a string.
pub open spec fn mount_destination(m: Json) -> Option<Seq<char>> {
    json_text(json_member(Some(m), "Destination"@))
}

/// The application path a mounts answer gives: the first destination of
/// the JSON array that looks like an application folder.
pub open spec fn mounts_app_path(doc: Option<Json>) -> Option<Seq<char>> {
    match doc {
        Some(Json::Array(items)) => first_app_dir(items@.map_values(|m: Json| mount_destination(m))),
        _ => None,
    }
}

/// What to do after asking for the working directory.
pub enum AppPathProbe {
    /// The working directory names the application path.
    Found(String),
    /// Nothing usable came back: ask for the mounts next.
    InspectMounts,
}

/// Decides on the parsed answer to [`working_dir_command`] (`None` when the
/// remote call failed or its output was not JSON).
pub fn working_dir_probe(doc: Option<&Json>) -> (r: AppPathProbe)
    ensures
        match working_dir_path(deref_opt(doc)) {
            Some(p) => r matches AppPathProbe::Found(q) && q@ == p,
            None => r is InspectMounts,
        },
{
    match doc {
        Some(Json::Text(p)) => {
            if !p.as_str().is_empty() {
                AppPathProbe::Found(p.clone())
            } else {
                AppPathProbe::InspectMounts
            }
        },
        _ => AppPathProbe::InspectMounts,
    }
}

/// Reads the answer to [`working_dir_command`] (`None` when the remote call
/// failed).
pub fn app_path_after_working_dir(output: Option<&str>) -> (r: AppPathProbe)
    ensures
        match output {
            Some(o) => match working_dir_path(json_document(o@)) {
                Some(p) => r matches AppPathProbe::Found(q) && q@ == p,
                None => r is InspectMounts,
            },
            None => r is InspectMounts,
        },
{
    match output {
        Some(o) => {
            let doc = parse_json(o);
            working_dir_probe(doc.as_ref())
        },
        None => AppPathProbe::InspectMounts,
    }
}

fn looks_like_app_dir_exec(d: &String) -> (r: bool)
    ensures
        r == looks_like_app_dir(d@),
{
    let l = lowercase_chars(&chars_of(d.as_str()));
    contains_chars(&l, &chars_of("/app")) || contains_chars(&l, &chars_of("/www"))
        || contains_chars(&l, &chars_of("/srv")) || contains_chars(&l, &chars_of("/usr/src"))
}

/// Decides on the parsed answer to [`mounts_command`] (`None` when the
/// remote call failed or its output was not JSON): the first mount
/// destination that looks like an application folder.
pub fn mounts_app_path_of(doc: Option<&Json>) -> (r: Option<String>)
    ensures
        opt_text(r) == mounts_app_path(deref_opt(doc)),
{
    let items = match doc {
        Some(Json::Array(items)) => items,
        _ => return None,
    };
    let ghost dv = items@.map_values(|m: Json| mount_destination(m));
    let mut i: usize = 0;
    assert(dv.skip(0) =~= dv);
    while i < items.len()
        invariant
            i <= items.len(),
            dv == items@.map_values(|m: Json| mount_destination(m)),
            doc == Some(&Json::Array(*items)),
            first_app_dir(dv) == first_app_dir(dv.skip(i as int)),
        decreases items.len() - i,
    {
        assert(dv.skip(i as int).drop_first() =~= dv.skip(i + 1));
        let d = text_of(member_of(Some(&items[i]), "Destination"));
        assert(dv.skip(i as int)[0] == opt_text(d));
        if let Some(d) = d {
            if looks_like_app_dir_exec(&d) {
                return Some(d);
            }
        }
        i += 1;
    }
    None
}

/// Reads the answer to [`mounts_command`] (`None` when the remote call
/// failed): the first destination that looks like an application folder.
pub fn app_path_after_mounts(output: Option<&str>) -> (r: Option<String>)
    ensures
        opt_text(r) == match output {
            Some(o) => mounts_app_path(json_document(o@)),
            None => None,
        },
{
    match output {
        Some(o) => {
            let doc = parse_json(o);
            mounts_app_path_of(doc.as_ref())
        },
        None => None,
    }
}

/// The command that lists a folder inside the container.
pub open spec fn list_folder_command(path: Seq<char>) -> Seq<char> {
    "sh -lc 'ls -la "@ + path + " || ls -la /'"@
}

/// The quick commands a discovered container is given: a shell, and a
/// listing of the application folder (or of `/`).
pub open spec fn discovered_quick_commands(predicted: Option<Seq<char>>) -> Seq<QuickCommandView> {
    let list_path = match predicted {
        Some(p) => p,
        None => "/"@,
    };
    seq![
        QuickCommandView {
            name: "shell"@,
            cmd: "sh -lc 'bash -l || sh'"@,
            description: Some("Interactive shell inside container"@),
            in_container: Some(true),
        },
        QuickCommandView {
            name: "ls_app"@,
            cmd: list_folder_command(list_path),
            description: Some("List application folder inside container"@),
            in_container: Some(true),
        },
    ]
}

/// The text when it is not empty.
pub open spec fn non_empty(t: Seq<char>) -> Option<Seq<char>> {
    if t.len() == 0 {
        None
    } else {
        Some(t)
    }
}

/// The service that a planned container becomes.
pub open spec fn discovered_service_view(
    plan: ContainerPlan,
    host: Seq<char>,
    ssh_user: Option<Seq<char>>,
    predicted: Option<Seq<char>>,
) -> ServiceView {
    let name = plan.container_name@;
    ServiceView {
        id: plan.id@,
        name: name,
        host: host,
        port: plan.port,
        ssh_user: ssh_user,
        start_cmd: Some("docker start "@ + name),
        stop_cmd: Some("docker stop "@ + name),
        restart_cmd: Some("docker restart "@ + name),
        log_path: None,
        log_cmd: Some("docker logs "@ + name + " 2>&1 | tail -n 200"@),
        health_cmd: Some("docker inspect --format '{{.State.Status}}' "@ + name),
        health_path: None,
        dependencies: Seq::empty(),
        status: plan.status@,
        tags: texts(plan.tags@),
        stacks: texts(plan.stacks@),
        container_name: Some(name),
        container_id: non_empty(plan.short_id@),
        image: non_empty(plan.image@),
        discovered: true,
        quick_commands: discovered_quick_commands(predicted),
        predicted_app_path: predicted,
    }
}

fn owned_opt(o: Option<&str>) -> (r: Option<String>)
    ensures
        opt_text(r) == opt_str_view(o),
{
    match o {
        Some(s) => Some(s.to_string()),
        None => None,
    }
}

fn non_empty_string(s: String) -> (r: Option<String>)
    ensures
        opt_text(r) == non_empty(s@),
{
    if s.as_str().is_empty() {
        None
    } else {
        Some(s)
    }
}

/// Builds the service for a planned container, with the application path
/// that the inspect calls found (if any). The control, log and health
/// commands all go through `docker` and the container's name.
pub fn discovered_service(
    plan: ContainerPlan,
    host: &str,
    ssh_user: Option<&str>,
    predicted_app_path: Option<String>,
) -> (r: Service)
    ensures
        r@ == discovered_service_view(plan, host@, opt_str_view(ssh_user), opt_text(predicted_app_path)),
{
    let name = plan.container_name.as_str();
    let log_cmd = concat3_str("docker logs ", name, " 2>&1 | tail -n 200");
    let start_cmd = concat_str("docker start ", name);
    let stop_cmd = concat_str("docker stop ", name);
    let restart_cmd = concat_str("docker restart ", name);
    let health_cmd = concat_str("docker inspect --format '{{.State.Status}}' ", name);
    let list_path = match &predicted_app_path {
        Some(p) => p.clone(),
        None => "/".to_string(),
    };
    let shell = QuickCommand {
        name: "shell".to_string(),
        cmd: "sh -lc 'bash -l || sh'".to_string(),
        description: Some("Interactive shell inside container".to_string()),
        in_container: Some(true),
    };
    let ls_app = QuickCommand {
        name: "ls_app".to_string(),
        cmd: concat3_str("sh -lc 'ls -la ", list_path.as_str(), " || ls -la /'"),
        description: Some("List application folder inside container".to_string()),
        in_container: Some(true),
    };
    let mut quicks: Vec<QuickCommand> = Vec::new();
    quicks.push(shell);
    quicks.push(ls_app);
    assert(quick_views(quicks@) =~= discovered_quick_commands(opt_text(predicted_app_path)));
    let container_name = plan.container_name.clone();
    let r = Service {
        id: plan.id,
        name: plan.container_name,
        host: host.to_string(),
        port: plan.port,
        ssh_user: owned_opt(ssh_user),
        start_cmd: Some(start_cmd),
        stop_cmd: Some(stop_cmd),
        restart_cmd: Some(restart_cmd),
        log_path: None,
        log_cmd: Some(log_cmd),
        health_cmd: Some(health_cmd),
        health_path: None,
        dependencies: Vec::new(),
        status: plan.status,
        tags: plan.tags,
        stacks: plan.stacks,
        container_name: Some(container_name),
        container_id: non_empty_string(plan.short_id),
        image: non_empty_string(plan.image),
        discovered: true,
        quick_commands: quicks,
        predicted_app_path,
    };
    assert(texts(r.dependencies@) =~= Seq::<Seq<char>>::empty());
    r
}

} // verus!
