//! The OpenAI key tester plugin's logic: the request it makes and how it
//! reads the answer. The HTTP call itself is made by the caller.
use vstd::prelude::*;
use crate::text::{
    chars_lt, chars_of, concat_str, decimal_chars, decimal_text, lemma_text_lt_transitive,
    lemma_text_trichotomy, slice_chars, string_of, text_le, text_lt,
};
use crate::service::{texts, opt_text};
use crate::discover::{char_texts, strings_of};
use crate::json::{deref_opt, json_document, json_member, json_text, member_of, parse_json, text_of, Json};

verus! {

/// The API base URL used when the input names none.
pub fn default_base_url() -> (r: String)
    ensures
        r@ == "https://api.openai.com/v1"@,
{
    "https://api.openai.com/v1".to_string()
}

/// The user agent sent with the request.
pub fn user_agent() -> (r: String)
    ensures
        r@ == "rustboard/plugin-openai-tester"@,
{
    "rustboard/plugin-openai-tester".to_string()
}

/// `s` without trailing `c` (`str::trim_end_matches` on a character).
pub open spec fn trim_trailing(s: Seq<char>, c: char) -> Seq<char>
    decreases s.len(),
{
    if s.len() > 0 && s.last() == c {
        trim_trailing(s.drop_last(), c)
    } else {
        s
    }
}

proof fn lemma_trim_trailing_at(s: Seq<char>, c: char, j: int)
    requires
        0 <= j <= s.len(),
        forall|k: int| j <= k < s.len() ==> s[k] == c,
        j == 0 || s[j - 1] != c,
    ensures
        trim_trailing(s, c) == s.take(j),
    decreases s.len() - j,
{
    if j < s.len() {
        assert(s.drop_last().take(j) =~= s.take(j));
        lemma_trim_trailing_at(s.drop_last(), c, j);
    } else {
        assert(s.take(j) =~= s);
    }
}

/// The URL that lists the models: the base URL without trailing `/`,
/// then `/models`.
pub fn models_url(base_url: &str) -> (r: String)
    ensures
        r@ == trim_trailing(base_url@, '/') + "/models"@,
{
    let v = chars_of(base_url);
    let mut j = v.len();
    while j > 0 && v[j - 1] == '/'
        invariant
            j <= v.len(),
            forall|k: int| j <= k < v.len() ==> v@[k] == '/',
        decreases j,
    {
        j -= 1;
    }
    proof {
        lemma_trim_trailing_at(v@, '/', j as int);
    }
    let base = slice_chars(&v, 0, j);
    assert(v@.subrange(0, j as int) =~= v@.take(j as int));
    let b = string_of(base.as_slice());
    concat_str(b.as_str(), "/models")
}

/// The `Authorization` header value for an API key.
pub fn bearer_header(api_key: &str) -> (r: String)
    ensures
        r@ == "Bearer "@ + api_key@,
{
    concat_str("Bearer ", api_key)
}

/// What the tester reports.
pub enum TesterOutput {
    /// The key works; these are the models it can use, sorted.
    Success { models: Vec<String> },
    /// The key was refused.
    Invalid { error: String },
    /// The input was unusable, or the service could not be reached or
    /// answered with an error.
    Failure { error: String },
}

/// The report for input that is not valid JSON.
pub fn invalid_input(reason: &str) -> (r: TesterOutput)
    ensures
        r matches TesterOutput::Failure { error } && error@ == "invalid input JSON: "@ + reason@,
{
    TesterOutput::Failure { error: concat_str("invalid input JSON: ", reason) }
}

/// The report when the request could not be made.
pub fn network_error(reason: &str) -> (r: TesterOutput)
    ensures
        r matches TesterOutput::Failure { error } && error@ == "network error: "@ + reason@,
{
    TesterOutput::Failure { error: concat_str("network error: ", reason) }
}

/// The report when no HTTP client could be built.
pub fn client_error(reason: &str) -> (r: TesterOutput)
    ensures
        r matches TesterOutput::Failure { error } && error@ == "failed to build HTTP client: "@ + reason@,
{
    TesterOutput::Failure { error: concat_str("failed to build HTTP client: ", reason) }
}

/// The status code in decimal, as a plugin reports it.
pub fn status_code_text(status: u16) -> (r: String)
    ensures
        r@ == decimal_text(status as nat),
{
    string_of(decimal_chars(status as u64).as_slice())
}

/// The `error.message` of a parsed error body, when it is a string.
pub open spec fn error_message(doc: Option<Json>) -> Option<Seq<char>> {
    json_text(json_member(json_member(doc, "error"@), "message"@))
}

/// Reads `error.message` of a parsed OpenAI-style error body.
pub fn error_message_of(doc: Option<&Json>) -> (r: Option<String>)
    ensures
        opt_text(r) == error_message(deref_opt(doc)),
{
    text_of(member_of(member_of(doc, "error"), "message"))
}

/// Reads `error.message` of an OpenAI-style error body, when the body is
/// JSON and that member is a string.
pub fn extract_openai_error(body: &str) -> (r: Option<String>)
    ensures
        opt_text(r) == error_message(json_document(body@)),
{
    let doc = parse_json(body);
    error_message_of(doc.as_ref())
}

/// The error text of a refused request: the body's `error.message`, or
/// `HTTP <status>`.
pub open spec fn http_error_text(body: Seq<char>, status_text: Seq<char>) -> Seq<char> {
    match error_message(json_document(body)) {
        Some(m) => m,
        None => "HTTP "@ + status_text,
    }
}

/// `s` is in order.
pub open spec fn sorted_texts(s: Seq<Seq<char>>) -> bool {
    forall|i: int, j: int| 0 <= i < j < s.len() ==> text_le(s[i], s[j])
}

/// Sorts texts into order.
pub fn sort_texts(v: &Vec<String>) -> (r: Vec<String>)
    ensures
        sorted_texts(texts(r@)),
        texts(r@).to_multiset() == texts(v@).to_multiset(),
{
    broadcast use vstd::seq_lib::group_to_multiset_ensures;

    let mut out: Vec<Vec<char>> = Vec::new();
    let mut i: usize = 0;
    assert(texts(v@).take(0) =~= Seq::<Seq<char>>::empty());
    while i < v.len()
        invariant
            i <= v.len(),
            sorted_texts(char_texts(out@)),
            char_texts(out@).to_multiset() == texts(v@).take(i as int).to_multiset(),
        decreases v.len() - i,
    {
        let x = chars_of(v[i].as_str());
        let mut p: usize = 0;
        while p < out.len() && !chars_lt(&x, &out[p])
            invariant
                p <= out.len(),
                forall|k: int| 0 <= k < p ==> text_le(#[trigger] char_texts(out@)[k], x@),
            decreases out.len() - p,
        {
            proof {
                lemma_text_trichotomy(x@, out@[p as int]@);
            }
            p += 1;
        }
        let ghost old_out = char_texts(out@);
        let ghost pos = p as int;
        proof {
            if p < out.len() {
                assert(text_lt(x@, old_out[pos]));
            }
        }
        out.insert(p, x);
        let ghost new_out = char_texts(out@);
        assert(new_out =~= old_out.insert(pos, x@));
        proof {
            assert forall|a: int, b: int| 0 <= a < b < new_out.len() implies text_le(new_out[a], new_out[b]) by {
                if a < pos && b < pos {
                    assert(new_out[a] == old_out[a]);
                    assert(new_out[b] == old_out[b]);
                } else if a < pos && b == pos {
                    assert(new_out[a] == old_out[a]);
                } else if a < pos && b > pos {
                    assert(new_out[a] == old_out[a]);
                    assert(new_out[b] == old_out[b - 1]);
                } else if a == pos {
                    assert(new_out[b] == old_out[b - 1]);
                    assert(text_le(old_out[pos], old_out[b - 1]));
                    if old_out[pos] != old_out[b - 1] {
                        lemma_text_lt_transitive(x@, old_out[pos], old_out[b - 1]);
                    }
                } else {
                    assert(new_out[a] == old_out[a - 1]);
                    assert(new_out[b] == old_out[b - 1]);
                }
            }
            vstd::seq_lib::to_multiset_insert(old_out, pos, x@);
            assert(x@ == texts(v@)[i as int]);
            assert(texts(v@).take(i + 1) =~= texts(v@).take(i as int).push(x@));
            vstd::seq_lib::to_multiset_build(texts(v@).take(i as int), x@);
        }
        i += 1;
    }
    assert(texts(v@).take(v.len() as int) =~= texts(v@));
    strings_of(&out)
}

/// How the tester reads the answer to its request: a refusal (401 or 403)
/// means the key is invalid, any other status outside 200..300 is a
/// failure, and a success lists the model ids (sorted; none when the body
/// did not hold the expected list). `status_text` is how the status is
/// written in the fallback error text.
pub fn response_output(status: u16, status_text: &str, body: &str, model_ids: Option<Vec<String>>) -> (r:
    TesterOutput)
    ensures
        (status == 401 || status == 403) ==> (r matches TesterOutput::Invalid { error } && error@
            == http_error_text(body@, status_text@)),
        (status != 401 && status != 403 && !(200 <= status < 300)) ==> (r matches TesterOutput::Failure {
            error,
        } && error@ == http_error_text(body@, status_text@)),
        (200 <= status < 300) ==> (r matches TesterOutput::Success { models } && sorted_texts(
            texts(models@),
        ) && texts(models@).to_multiset() == match model_ids {
            Some(ids) => texts(ids@).to_multiset(),
            None => Seq::<Seq<char>>::empty().to_multiset(),
        }),
{
    if status == 401 || status == 403 || !(200 <= status && status < 300) {
        let msg = match extract_openai_error(body) {
            Some(m) => m,
            None => concat_str("HTTP ", status_text),
        };
        if status == 401 || status == 403 {
            TesterOutput::Invalid { error: msg }
        } else {
            TesterOutput::Failure { error: msg }
        }
    } else {
        let ids = match model_ids {
            Some(ids) => ids,
            None => Vec::new(),
        };
        assert(texts(ids@) =~= Seq::<Seq<char>>::empty() || model_ids is Some);
        TesterOutput::Success { models: sort_texts(&ids) }
    }
}

} // verus!
