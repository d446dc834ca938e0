//! Configuration: user preferences, where discovered services are kept,
//! and how discovered services join the configured ones.
use vstd::prelude::*;
use crate::text::{alphanumeric, chars_of, is_alphanumeric_char, last_index, rfind_char, chars_equal, string_of, concat3_str};
use crate::service::{Service, ServiceView, service_views};

verus! {

/// Dashboard preferences.
pub struct Preferences {
    pub show_tooltips: bool,
    pub theme: String,
}

/// The theme used when the preferences name none.
pub fn default_theme() -> (r: String)
    ensures
        r@ == "dark"@,
{
    "dark".to_string()
}

/// The preferences used when the preferences file cannot be read: tooltips
/// on, dark theme.
pub fn default_preferences() -> (r: Preferences)
    ensures
        r.show_tooltips,
        r.theme@ == "dark"@,
{
    Preferences { show_tooltips: true, theme: default_theme() }
}

/// A host name character kept in a file name: letters, digits and `-`
/// stay, anything else becomes `_`.
pub open spec fn host_char(c: char) -> char {
    if alphanumeric(c) || c == '-' {
        c
    } else {
        '_'
    }
}

/// The host name made safe for a file name.
pub open spec fn safe_host_text(host: Seq<char>) -> Seq<char> {
    host.map_values(|c: char| host_char(c))
}

/// The host name made safe for a file name.
pub fn safe_host_name(host: &str) -> (r: String)
    ensures
        r@ == safe_host_text(host@),
{
    let v = chars_of(host);
    let mut out: Vec<char> = Vec::new();
    let mut i: usize = 0;
    while i < v.len()
        invariant
            i <= v.len(),
            out@ == v@.take(i as int).map_values(|c: char| host_char(c)),
        decreases v.len() - i,
    {
        let c = v[i];
        out.push(if is_alphanumeric_char(c) || c == '-' { c } else { '_' });
        i += 1;
        assert(out@ =~= v@.take(i as int).map_values(|c: char| host_char(c)));
    }
    assert(v@.take(v.len() as int) =~= v@);
    string_of(out.as_slice())
}

/// The file that holds the services discovered on `host`:
/// `config/discovered/<safe host>.yaml`.
pub fn discovered_file_path(host: &str) -> (r: String)
    ensures
        r@ == "config/discovered/"@ + safe_host_text(host@) + ".yaml"@,
{
    let safe = safe_host_name(host);
    concat3_str("config/discovered/", safe.as_str(), ".yaml")
}

/// The extension of a file name, as `Path::extension` gives it: the text
/// after the last `.`, unless that `.` begins the name.
pub open spec fn file_extension(name: Seq<char>) -> Option<Seq<char>> {
    if name == ".."@ {
        None
    } else {
        match last_index(name, '.') {
            Some(p) => if p == 0 {
                None
            } else {
                Some(name.skip(p + 1))
            },
            None => None,
        }
    }
}

/// The stem of a file name, as `Path::file_stem` gives it: the text before
/// the last `.`, or the whole name when that `.` begins it or there is none.
pub open spec fn file_stem(name: Seq<char>) -> Seq<char> {
    if name == ".."@ {
        name
    } else {
        match last_index(name, '.') {
            Some(p) => if p == 0 {
                name
            } else {
                name.take(p)
            },
            None => name,
        }
    }
}

/// Splits a file name into stem and extension.
pub fn split_file_name(name: &str) -> (r: (String, Option<String>))
    ensures
        r.0@ == file_stem(name@),
        match r.1 {
            Some(e) => file_extension(name@) == Some(e@),
            None => file_extension(name@) is None,
        },
{
    let v = chars_of(name);
    let dotdot = chars_of("..");
    if chars_equal(&v, &dotdot) {
        return (name.to_string(), None);
    }
    match rfind_char(&v, '.') {
        Some(p) => {
            if p == 0 {
                (name.to_string(), None)
            } else {
                let stem = crate::text::slice_chars(&v, 0, p);
                let ext = crate::text::slice_chars(&v, p + 1, v.len());
                assert(v@.subrange(0, p as int) =~= v@.take(p as int));
                assert(v@.subrange(p + 1, v@.len() as int) =~= v@.skip(p + 1));
                (string_of(stem.as_slice()), Some(string_of(ext.as_slice())))
            }
        },
        None => (name.to_string(), None),
    }
}

/// Whether a file name ends in `.yaml` or `.yml`.
pub fn is_yaml_file_name(name: &str) -> (r: bool)
    ensures
        r == (file_extension(name@) == Some("yaml"@) || file_extension(name@) == Some("yml"@)),
{
    let (_, ext) = split_file_name(name);
    match ext {
        Some(e) => {
            let ev = chars_of(e.as_str());
            chars_equal(&ev, &chars_of("yaml")) || chars_equal(&ev, &chars_of("yml"))
        },
        None => false,
    }
}

/// The ids of a list of services.
pub open spec fn ids_of(v: Seq<ServiceView>) -> Seq<Seq<char>> {
    v.map_values(|s: ServiceView| s.id)
}

/// The services of several files, one file after the other.
pub open spec fn joined(batches: Seq<Seq<ServiceView>>) -> Seq<ServiceView>
    decreases batches.len(),
{
    if batches.len() == 0 {
        Seq::empty()
    } else {
        joined(batches.drop_last()) + batches.last()
    }
}

/// The abstract values of several lists of services.
pub open spec fn batch_views(batches: Seq<Vec<Service>>) -> Seq<Seq<ServiceView>> {
    batches.map_values(|b: Vec<Service>| service_views(b@))
}

/// The configured services followed by each incoming service whose id is
/// not yet present, in order.
pub open spec fn merge_views(base: Seq<ServiceView>, incoming: Seq<ServiceView>) -> Seq<ServiceView>
    decreases incoming.len(),
{
    if incoming.len() == 0 {
        base
    } else {
        let m = merge_views(base, incoming.drop_last());
        if ids_of(m).contains(incoming.last().id) {
            m
        } else {
            m.push(incoming.last())
        }
    }
}

fn has_id(services: &Vec<Service>, id: &String) -> (r: bool)
    ensures
        r == ids_of(service_views(services@)).contains(id@),
{
    let mut i: usize = 0;
    while i < services.len()
        invariant
            i <= services.len(),
            forall|k: int| 0 <= k < i ==> services@[k].id@ != id@,
        decreases services.len() - i,
    {
        if services[i].id == *id {
            assert(ids_of(service_views(services@))[i as int] == id@);
            return true;
        }
        i += 1;
    }
    assert forall|k: int| 0 <= k < ids_of(service_views(services@)).len() implies ids_of(
        service_views(services@),
    )[k] != id@ by {
        assert(services@[k].id@ != id@);
    }
    false
}

/// Adds discovered services, file by file, to the configured ones. A
/// discovered service is skipped when a service with its id is already
/// there, so the configured services are never replaced.
pub fn merge_services(services: Vec<Service>, discovered: &Vec<Vec<Service>>) -> (r: Vec<Service>)
    ensures
        service_views(r@) == merge_views(service_views(services@), joined(batch_views(discovered@))),
{
    let ghost base = service_views(services@);
    let ghost bs = batch_views(discovered@);
    let mut out = services;
    let mut b: usize = 0;
    assert(bs.take(0) =~= Seq::<Seq<ServiceView>>::empty());
    while b < discovered.len()
        invariant
            b <= discovered.len() == bs.len(),
            bs == batch_views(discovered@),
            service_views(out@) == merge_views(base, joined(bs.take(b as int))),
        decreases discovered.len() - b,
    {
        let batch = &discovered[b];
        let ghost before = joined(bs.take(b as int));
        let mut j: usize = 0;
        assert(bs[b as int] == service_views(batch@));
        assert(before + service_views(batch@).take(0) =~= before);
        while j < batch.len()
            invariant
                j <= batch.len(),
                service_views(out@) == merge_views(base, before + service_views(batch@).take(j as int)),
            decreases batch.len() - j,
        {
            let ghost inc = before + service_views(batch@).take(j as int);
            let ghost inc2 = before + service_views(batch@).take(j + 1);
            assert(inc2.drop_last() =~= inc);
            assert(inc2.last() == batch@[j as int]@);
            let present = has_id(&out, &batch[j].id);
            if !present {
                let ghost prev = out@;
                out.push(batch[j].copy());
                assert(service_views(out@) =~= service_views(prev).push(batch@[j as int]@));
            }
            j += 1;
        }
        assert(service_views(batch@).take(batch.len() as int) =~= service_views(batch@));
        assert(bs.take(b + 1).drop_last() =~= bs.take(b as int));
        b += 1;
    }
    assert(bs.take(bs.len() as int) =~= bs);
    out
}


/// Merging configured and discovered services keeps every configured
/// service unchanged and in its place and only appends after them; each
/// appended service is one of the discovered ones, with an id that no
/// earlier service (configured or appended) has; and every discovered
/// service's id ends up present.
pub proof fn lemma_merge_keeps_configured(base: Seq<ServiceView>, incoming: Seq<ServiceView>)
    ensures
        merge_views(base, incoming).len() >= base.len(),
        merge_views(base, incoming).take(base.len() as int) == base,
        forall|k: int|
            base.len() <= k < merge_views(base, incoming).len() ==> incoming.contains(
                #[trigger] merge_views(base, incoming)[k],
            ) && !ids_of(merge_views(base, incoming).take(k)).contains(merge_views(base, incoming)[k].id),
        forall|x: ServiceView| #[trigger] incoming.contains(x) ==> ids_of(merge_views(base, incoming)).contains(x.id),
    decreases incoming.len(),
{
    let merged = merge_views(base, incoming);
    if incoming.len() == 0 {
        assert(base.take(base.len() as int) =~= base);
    } else {
        let rest = incoming.drop_last();
        let x = incoming.last();
        lemma_merge_keeps_configured(base, rest);
        let m = merge_views(base, rest);
        assert forall|y: ServiceView| rest.contains(y) implies incoming.contains(y) by {
            let i = choose|i: int| 0 <= i < rest.len() && rest[i] == y;
            assert(incoming[i] == y);
        }
        assert(incoming.contains(x)) by {
            assert(incoming[incoming.len() - 1] == x);
        }
        if ids_of(m).contains(x.id) {
            assert(merged == m);
            assert forall|y: ServiceView| #[trigger] incoming.contains(y) implies ids_of(merged).contains(y.id) by {
                let i = choose|i: int| 0 <= i < incoming.len() && incoming[i] == y;
                if i < incoming.len() - 1 {
                    assert(rest[i] == y);
                    assert(rest.contains(y));
                }
            }
        } else {
            assert(merged == m.push(x));
            assert(merged.take(base.len() as int) =~= m.take(base.len() as int));
            assert forall|k: int|
                base.len() <= k < merged.len() implies incoming.contains(#[trigger] merged[k]) && !ids_of(
                    merged.take(k),
                ).contains(merged[k].id) by {
                if k < m.len() {
                    assert(merged.take(k) =~= m.take(k));
                    assert(merged[k] == m[k]);
                } else {
                    assert(merged.take(k) =~= m);
                }
            }
            assert forall|y: ServiceView| #[trigger] incoming.contains(y) implies ids_of(merged).contains(y.id) by {
                let i = choose|i: int| 0 <= i < incoming.len() && incoming[i] == y;
                if i < incoming.len() - 1 {
                    assert(rest[i] == y);
                    assert(rest.contains(y));
                    let j = choose|j: int| 0 <= j < ids_of(m).len() && ids_of(m)[j] == y.id;
                    assert(ids_of(merged)[j] == y.id);
                } else {
                    assert(ids_of(merged)[m.len() as int] == y.id);
                }
            }
        }
    }
}

/// When the configured services have distinct ids, so do the merged ones.
pub proof fn lemma_merge_distinct_ids(base: Seq<ServiceView>, incoming: Seq<ServiceView>)
    requires
        ids_of(base).no_duplicates(),
    ensures
        ids_of(merge_views(base, incoming)).no_duplicates(),
    decreases incoming.len(),
{
    if incoming.len() > 0 {
        lemma_merge_distinct_ids(base, incoming.drop_last());
        let m = merge_views(base, incoming.drop_last());
        let x = incoming.last();
        if !ids_of(m).contains(x.id) {
            let ids = ids_of(m.push(x));
            assert(ids =~= ids_of(m).push(x.id));
            assert forall|i: int, j: int| 0 <= i < ids.len() && 0 <= j < ids.len() && i != j implies ids[i]
                != ids[j] by {
                if i == ids.len() - 1 {
                    assert(ids_of(m)[j] == ids[j]);
                } else if j == ids.len() - 1 {
                    assert(ids_of(m)[i] == ids[i]);
                }
            }
        }
    }
}

/// The file saved for a host is read back when the discovered folder is
/// loaded: for a non-empty host, `<safe host>.yaml` has the extension
/// `yaml` and the safe host name as its stem.
pub proof fn lemma_saved_file_is_loaded(host: Seq<char>)
    requires
        host.len() > 0,
    ensures
        file_extension(safe_host_text(host) + ".yaml"@) == Some("yaml"@),
        file_stem(safe_host_text(host) + ".yaml"@) == safe_host_text(host),
{
    reveal_strlit(".yaml");
    reveal_strlit("yaml");
    reveal_strlit("..");
    reveal_strlit(".yam");
    reveal_strlit(".ya");
    reveal_strlit(".y");
    reveal_strlit(".");
    let safe = safe_host_text(host);
    let n = safe + ".yaml"@;
    let p = safe.len() as int;
    assert(n.len() == p + 5);
    assert(n != ".."@) by {
        assert(n.len() != 2 || p + 5 == 2);
    }
    assert(n.drop_last() =~= safe + ".yam"@);
    assert(n.drop_last().drop_last() =~= safe + ".ya"@);
    assert(n.drop_last().drop_last().drop_last() =~= safe + ".y"@);
    assert(n.drop_last().drop_last().drop_last().drop_last() =~= safe + "."@);
    assert(last_index(safe + "."@, '.') == Some(p));
    assert(last_index(safe + ".y"@, '.') == Some(p));
    assert(last_index(safe + ".ya"@, '.') == Some(p));
    assert(last_index(safe + ".yam"@, '.') == Some(p));
    assert(last_index(n, '.') == Some(p));
    assert(n.skip(p + 1) =~= "yaml"@);
    assert(n.take(p) =~= safe);
}

/// Reloading what was saved gives it back: with no configured services,
/// merging one file of services with distinct ids yields exactly those
/// services, in their order.
pub proof fn lemma_reload_saved(saved: Seq<ServiceView>)
    requires
        ids_of(saved).no_duplicates(),
    ensures
        merge_views(Seq::empty(), joined(seq![saved])) == saved,
    decreases saved.len(),
{
    let one = seq![saved];
    assert(one.drop_last() =~= Seq::<Seq<ServiceView>>::empty());
    assert(one.last() == saved);
    assert(joined(one.drop_last()) == Seq::<ServiceView>::empty());
    assert(Seq::<ServiceView>::empty() + saved =~= saved);
    assert(joined(one) =~= saved);
    lemma_merge_into_empty(saved);
}

proof fn lemma_merge_into_empty(saved: Seq<ServiceView>)
    requires
        ids_of(saved).no_duplicates(),
    ensures
        merge_views(Seq::empty(), saved) == saved,
    decreases saved.len(),
{
    if saved.len() > 0 {
        let w = saved.drop_last();
        assert(ids_of(w) =~= ids_of(saved).drop_last());
        assert forall|a: int, b: int| 0 <= a < ids_of(w).len() && 0 <= b < ids_of(w).len() && a != b implies ids_of(
            w,
        )[a] != ids_of(w)[b] by {
            assert(ids_of(w)[a] == ids_of(saved)[a]);
            assert(ids_of(w)[b] == ids_of(saved)[b]);
        }
        lemma_merge_into_empty(w);
        if ids_of(w).contains(saved.last().id) {
            let j = choose|j: int| 0 <= j < ids_of(w).len() && ids_of(w)[j] == saved.last().id;
            assert(ids_of(saved)[j] == ids_of(saved)[saved.len() - 1]);
        }
        assert(w.push(saved.last()) =~= saved);
    }
}

} // verus!
