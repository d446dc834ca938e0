//! Plugins: which files are plugins, which plugin names are acceptable,
//! and the interface a plugin offers.
use vstd::prelude::*;
use crate::text::{chars_of, contains_chars, contains_text, concat_str, string_of};
use crate::config::{file_extension, file_stem, split_file_name};
use crate::service::texts;

verus! {

/// What a dashboard plugin offers: a name and an entry point from input
/// text to output text.
pub trait DashboardPlugin {
    fn name(&self) -> &'static str;

    fn execute(&self, args: &str) -> String;
}

/// The plugin a directory entry holds: the stem of a regular file whose
/// extension is `wasm`.
pub open spec fn plugin_of_entry(file_name: Seq<char>, is_file: bool) -> Option<Seq<char>> {
    if is_file && file_extension(file_name) == Some("wasm"@) {
        Some(file_stem(file_name))
    } else {
        None
    }
}

/// The plugin names among directory entries `(file name, is a file)`, in order.
pub open spec fn plugin_names_of(entries: Seq<(Seq<char>, bool)>) -> Seq<Seq<char>>
    decreases entries.len(),
{
    if entries.len() == 0 {
        Seq::empty()
    } else {
        let r = plugin_names_of(entries.drop_last());
        match plugin_of_entry(entries.last().0, entries.last().1) {
            Some(n) => r.push(n),
            None => r,
        }
    }
}

/// Directory entries, by their texts.
pub open spec fn entry_texts(entries: Seq<(String, bool)>) -> Seq<(Seq<char>, bool)> {
    entries.map_values(|e: (String, bool)| (e.0@, e.1))
}

/// The plugin a directory entry holds, if any.
pub fn plugin_name_of_entry(file_name: &str, is_file: bool) -> (r: Option<String>)
    ensures
        match r {
            Some(n) => plugin_of_entry(file_name@, is_file) == Some(n@),
            None => plugin_of_entry(file_name@, is_file) is None,
        },
{
    if !is_file {
        return None;
    }
    let (stem, ext) = split_file_name(file_name);
    match ext {
        Some(e) => {
            if e == "wasm".to_string() {
                Some(stem)
            } else {
                None
            }
        },
        None => None,
    }
}

/// The names of the plugins among directory entries `(file name, is a
/// file)`: the stems of the `.wasm` files, in order.
pub fn plugin_names(entries: &Vec<(String, bool)>) -> (r: Vec<String>)
    ensures
        texts(r@) == plugin_names_of(entry_texts(entries@)),
{
    let ghost ev = entry_texts(entries@);
    let mut out: Vec<String> = Vec::new();
    let mut i: usize = 0;
    assert(ev.take(0) =~= Seq::<(Seq<char>, bool)>::empty());
    while i < entries.len()
        invariant
            i <= entries.len(),
            ev == entry_texts(entries@),
            texts(out@) == plugin_names_of(ev.take(i as int)),
        decreases entries.len() - i,
    {
        assert(ev.take(i + 1).drop_last() =~= ev.take(i as int));
        assert(ev.take(i + 1).last() == (entries@[i as int].0@, entries@[i as int].1));
        let (name, is_file) = &entries[i];
        match plugin_name_of_entry(name.as_str(), *is_file) {
            Some(n) => {
                let ghost prev = out@;
                out.push(n);
                assert(texts(out@) =~= texts(prev).push(out@.last()@));
            },
            None => {},
        }
        i += 1;
    }
    assert(ev.take(ev.len() as int) =~= ev);
    out
}

/// A plugin name is acceptable when it holds no `/`, no `\` and no `..`,
/// so it cannot leave the plugin directory.
pub open spec fn valid_plugin_name(name: Seq<char>) -> bool {
    !contains_text(name, "/"@) && !contains_text(name, "\\"@) && !contains_text(name, ".."@)
}

/// Whether a requested plugin name is acceptable.
pub fn is_valid_plugin_name(name: &str) -> (r: bool)
    ensures
        r == valid_plugin_name(name@),
{
    let v = chars_of(name);
    !contains_chars(&v, &chars_of("/")) && !contains_chars(&v, &chars_of("\\")) && !contains_chars(
        &v,
        &chars_of(".."),
    )
}

/// The file name a plugin has in the plugin directory.
pub fn plugin_file_name(name: &str) -> (r: String)
    ensures
        r@ == name@ + ".wasm"@,
{
    concat_str(name, ".wasm")
}

/// The error given when no plugin file exists at the requested path.
pub fn plugin_not_found_message(path: &str) -> (r: String)
    ensures
        r@ == "plugin not found: "@ + path@,
{
    concat_str("plugin not found: ", path)
}

} // verus!
