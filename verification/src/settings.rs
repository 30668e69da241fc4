//! Application settings read from `config.toml`: the color theme and the
//! startup wrap mode. A broken file or value never aborts startup: each
//! setting falls back to its default with a warning.

use vstd::prelude::*;
use vstd::string::*;

use crate::model::buffer::strings_view;
use crate::text::str_equals;
use crate::theme::ThemeChoice;

verus! {

broadcast use {vstd::seq::group_seq_axioms, vstd::seq_lib::group_seq_properties};

/// Whether `text` is a TOML document that `toml::from_str::<toml::Value>`
/// accepts.
pub uninterp spec fn toml_accepts(text: Seq<char>) -> bool;

/// The entries of the tables of the TOML document `text`, as
/// `toml::from_str::<toml::Value>` parses it: tables in key order, and in each
/// table its keys in order.
pub uninterp spec fn toml_entries(text: Seq<char>) -> Seq<EntryView>;

/// The `Display` text of the error `toml::from_str::<toml::Value>` reports
/// for `text`.
pub uninterp spec fn toml_error(text: Seq<char>) -> Seq<char>;

/// One key of a TOML document, as plain values: the top-level table it sits
/// in (none for a top-level key that holds no table), the key, the string or
/// boolean it holds when it is one, and its TOML text (`Display` of the
/// value).
pub struct TomlEntry {
    pub table: Option<String>,
    pub key: String,
    pub string: Option<String>,
    pub flag: Option<bool>,
    pub text: String,
}

/// The abstract form of a [`TomlEntry`].
pub struct EntryView {
    pub table: Option<Seq<char>>,
    pub key: Seq<char>,
    pub string: Option<Seq<char>>,
    pub flag: Option<bool>,
    pub text: Seq<char>,
}

/// The abstract form of an entry.
pub open spec fn entry_view(e: TomlEntry) -> EntryView {
    EntryView {
        table: match e.table {
            Some(t) => Some(t@),
            None => None,
        },
        key: e.key@,
        string: match e.string {
            Some(s) => Some(s@),
            None => None,
        },
        flag: e.flag,
        text: e.text@,
    }
}

/// The abstract form of entries.
pub open spec fn entries_view(es: Seq<TomlEntry>) -> Seq<EntryView> {
    es.map_values(|e: TomlEntry| entry_view(e))
}

/// `toml::from_str::<toml::Value>`, with the parsed document converted one
/// for one into entries: the keys of each top-level table, and each other
/// top-level key on its own (`Value::String`, `Value::Boolean` and `Display`
/// of each value), or the error's `Display` text. It
/// succeeds exactly on the texts named by `toml_accepts`, and its results are
/// named by `toml_entries` and `toml_error`.
#[verifier::external_body]
fn toml_document(text: &str) -> (res: Result<Vec<TomlEntry>, String>)
    ensures
        res is Ok <==> toml_accepts(text@),
        res matches Ok(v) ==> entries_view(v@) == toml_entries(text@),
        res matches Err(e) ==> e@ == toml_error(text@),
{
    let document = match toml::from_str::<toml::Value>(text) { Ok(d) => d, Err(e) => return Err(e.to_string()) };
    let mut entries = Vec::new();
    for (name, value) in document.as_table().into_iter().flatten() {
        let (table, items) = match value {
            toml::Value::Table(items) => (Some(name), Vec::from_iter(items)),
            other => (None, vec![(name, other)]),
        };
        for (key, item) in items {
            entries.push(TomlEntry { table: table.cloned(), key: key.clone(), string: item.as_str().map(String::from), flag: item.as_bool(), text: item.to_string() });
        }
    }
    Ok(entries)
}

/// `text` as Rust's `Debug` formatting of a `str` shows it (quoted, with
/// escapes).
pub uninterp spec fn debug_text(text: Seq<char>) -> Seq<char>;

/// `format!("{:?}", text)` for a string slice: its result is named by
/// `debug_text`; nothing more is stated.
#[verifier::external_body]
fn debug_quoted(text: &str) -> (res: String)
    ensures
        res@ == debug_text(text@),
{
    format!("{text:?}")
}

/// What `editor.wrap` holds.
pub enum WrapValue {
    Missing,
    Flag(bool),
    /// Anything but a boolean, by its TOML text.
    Other(String),
}

/// The settings-relevant parts of a parsed `config.toml`: the string under
/// `appearance.theme` (when there is one) and what `editor.wrap` holds; or
/// the parser's error message.
pub type ParsedSettings = Result<(Option<String>, WrapValue), String>;

/// The abstract form of [`WrapValue`].
pub enum WrapView {
    Missing,
    Flag(bool),
    Other(Seq<char>),
}

/// The abstract form of parsed settings.
pub open spec fn parsed_view(p: ParsedSettings) -> Result<(Option<Seq<char>>, WrapView), Seq<char>> {
    match p {
        Ok((theme, wrap)) => Ok((
            match theme {
                Some(t) => Some(t@),
                None => None,
            },
            match wrap {
                WrapValue::Missing => WrapView::Missing,
                WrapValue::Flag(b) => WrapView::Flag(b),
                WrapValue::Other(s) => WrapView::Other(s@),
            },
        )),
        Err(e) => Err(e@),
    }
}

/// The first entry of `table` with key `key`.
pub open spec fn find_entry(es: Seq<EntryView>, table: Seq<char>, key: Seq<char>) -> Option<EntryView>
    decreases es.len(),
{
    if es.len() == 0 {
        None
    } else if es[0].table == Some(table) && es[0].key == key {
        Some(es[0])
    } else {
        find_entry(es.drop_first(), table, key)
    }
}

/// The parts the settings read from a document's entries: the string under
/// `appearance.theme`, and `editor.wrap` as a boolean, as other TOML, or
/// missing.
pub open spec fn parts_of(es: Seq<EntryView>) -> (Option<Seq<char>>, WrapView) {
    (
        match find_entry(es, "appearance"@, "theme"@) {
            Some(e) => e.string,
            None => None,
        },
        match find_entry(es, "editor"@, "wrap"@) {
            Some(e) => match e.flag {
                Some(b) => WrapView::Flag(b),
                None => WrapView::Other(e.text),
            },
            None => WrapView::Missing,
        },
    )
}

/// The parts of the text of `config.toml`, or the parser's error.
pub open spec fn parsed_of(text: Seq<char>) -> Result<(Option<Seq<char>>, WrapView), Seq<char>> {
    if toml_accepts(text) {
        Ok(parts_of(toml_entries(text)))
    } else {
        Err(toml_error(text))
    }
}

/// The theme, the wrap mode and the warnings added for parsed settings.
pub open spec fn settings_spec(label: Seq<char>, parsed: Result<(Option<Seq<char>>, WrapView), Seq<char>>) -> (
    ThemeChoice,
    bool,
    Seq<Seq<char>>,
) {
    match parsed {
        Err(e) => (ThemeChoice::Dark, false, seq![label + ": "@ + e + "; using default settings"@]),
        Ok((theme, wrap)) => {
            let (t, tw) = match theme {
                Some(name) => if name == "dark"@ {
                    (ThemeChoice::Dark, Seq::<Seq<char>>::empty())
                } else if name == "light"@ {
                    (ThemeChoice::Light, Seq::<Seq<char>>::empty())
                } else {
                    (
                        ThemeChoice::Dark,
                        seq![label + ": unsupported appearance.theme="@ + debug_text(name)
                            + "; using default dark theme"@],
                    )
                },
                None => (ThemeChoice::Dark, Seq::<Seq<char>>::empty()),
            };
            let (w, ww) = match wrap {
                WrapView::Missing => (false, Seq::<Seq<char>>::empty()),
                WrapView::Flag(b) => (b, Seq::<Seq<char>>::empty()),
                WrapView::Other(text) => (
                    false,
                    seq![label + ": editor.wrap must be true or false, got "@ + text + "; using wrap = false"@],
                ),
            };
            (t, w, tw + ww)
        },
    }
}

fn push_message(warnings: &mut Vec<String>, parts: &[&str])
    ensures
        strings_view(final(warnings)@) == strings_view(old(warnings)@).push(joined_parts(parts@)),
{
    let mut message = String::new();
    let mut i: usize = 0;
    while i < parts.len()
        invariant
            i <= parts@.len(),
            message@ == joined_parts(parts@.take(i as int)),
        decreases parts@.len() - i,
    {
        message.append(parts[i]);
        assert(parts@.take(i + 1).drop_last() =~= parts@.take(i as int));
        i = i + 1;
    }
    assert(parts@.take(parts@.len() as int) =~= parts@);
    let ghost before = warnings@;
    warnings.push(message);
    assert(strings_view(warnings@) =~= strings_view(before).push(message@));
}

/// The concatenation of string slices.
pub open spec fn joined_parts(parts: Seq<&str>) -> Seq<char>
    decreases parts.len(),
{
    if parts.len() == 0 {
        Seq::empty()
    } else {
        joined_parts(parts.drop_last()) + parts.last()@
    }
}

/// Decides the settings from the parsed parts of `config.toml` (`label`
/// names the file in warnings), appending a warning for each broken part.
pub fn settings_from_parts(label: &str, parsed: ParsedSettings, warnings: &mut Vec<String>) -> (res: (ThemeChoice, bool))
    ensures
        res.0 == settings_spec(label@, parsed_view(parsed)).0,
        res.1 == settings_spec(label@, parsed_view(parsed)).1,
        strings_view(final(warnings)@) == strings_view(old(warnings)@) + settings_spec(label@, parsed_view(parsed)).2,
{
    let ghost pv = parsed_view(parsed);
    let ghost start = strings_view(warnings@);
    match parsed {
        Err(error) => {
            let tail = "; using default settings";
            let sep = ": ";
            proof {
                reveal_strlit("; using default settings");
                reveal_strlit(": ");
            }
            let parts = [label, sep, error.as_str(), tail];
            push_message(warnings, &parts);
            proof {
                reveal_with_fuel(joined_parts, 5);
            }
            assert(joined_parts(parts@) =~= label@ + ": "@ + error@ + "; using default settings"@);
            assert(strings_view(warnings@) =~= start + seq![label@ + ": "@ + error@ + "; using default settings"@]);
            (ThemeChoice::Dark, false)
        },
        Ok((theme, wrap)) => {
            let theme_choice = match theme {
                Some(name) => match ThemeChoice::parse(name.as_str()) {
                    Some(choice) => {
                        proof {
                            reveal_strlit("dark");
                            reveal_strlit("light");
                        }
                        choice
                    },
                    None => {
                        let head = ": unsupported appearance.theme=";
                        let tail = "; using default dark theme";
                        proof {
                            reveal_strlit(": unsupported appearance.theme=");
                            reveal_strlit("; using default dark theme");
                        }
                        let quoted = debug_quoted(name.as_str());
                        let parts = [label, head, quoted.as_str(), tail];
                        push_message(warnings, &parts);
                        proof {
                            reveal_with_fuel(joined_parts, 5);
                        }
                        assert(joined_parts(parts@) =~= label@ + ": unsupported appearance.theme="@ + debug_text(name@)
                            + "; using default dark theme"@);
                        ThemeChoice::Dark
                    },
                },
                None => ThemeChoice::Dark,
            };
            let ghost mid = strings_view(warnings@);
            let wrap_mode = match wrap {
                WrapValue::Missing => false,
                WrapValue::Flag(b) => b,
                WrapValue::Other(text) => {
                    let head = ": editor.wrap must be true or false, got ";
                    let tail = "; using wrap = false";
                    proof {
                        reveal_strlit(": editor.wrap must be true or false, got ");
                        reveal_strlit("; using wrap = false");
                    }
                    let parts = [label, head, text.as_str(), tail];
                    push_message(warnings, &parts);
                    proof {
                        reveal_with_fuel(joined_parts, 5);
                    }
                    assert(joined_parts(parts@) =~= label@ + ": editor.wrap must be true or false, got "@ + text@
                        + "; using wrap = false"@);
                    false
                },
            };
            assert(strings_view(warnings@) =~= start + settings_spec(label@, pv).2);
            (theme_choice, wrap_mode)
        },
    }
}

/// The first entry of `table` with key `key`.
fn find(entries: &Vec<TomlEntry>, table: &str, key: &str) -> (res: Option<usize>)
    ensures
        match find_entry(entries_view(entries@), table@, key@) {
            Some(e) => res matches Some(i) && i < entries@.len() && entry_view(entries@[i as int]) == e,
            None => res is None,
        },
{
    let ghost es = entries_view(entries@);
    let mut i: usize = 0;
    while i < entries.len()
        invariant
            es == entries_view(entries@),
            i <= es.len(),
            find_entry(es, table@, key@) == find_entry(es.skip(i as int), table@, key@),
        decreases es.len() - i,
    {
        let e = &entries[i];
        assert(es.skip(i as int)[0] == entry_view(entries@[i as int]));
        assert(es.skip(i as int).drop_first() =~= es.skip(i + 1));
        let in_table = match &e.table {
            Some(t) => str_equals(t.as_str(), table),
            None => false,
        };
        if in_table && str_equals(e.key.as_str(), key) {
            return Some(i);
        }
        i = i + 1;
    }
    assert(es.skip(i as int) =~= Seq::<EntryView>::empty());
    None
}

/// The parts of `config.toml` that the settings read, through the `toml`
/// crate: the parser's message when the text is no TOML document, else the
/// string under `appearance.theme` and what `editor.wrap` holds.
fn parse_settings(text: &str) -> (res: ParsedSettings)
    ensures
        parsed_view(res) == parsed_of(text@),
{
    let entries = match toml_document(text) {
        Err(error) => return Err(error),
        Ok(entries) => entries,
    };
    proof {
        reveal_strlit("appearance");
        reveal_strlit("theme");
        reveal_strlit("editor");
        reveal_strlit("wrap");
    }
    let theme = match find(&entries, "appearance", "theme") {
        Some(i) => match &entries[i].string {
            Some(name) => Some(name.clone()),
            None => None,
        },
        None => None,
    };
    let wrap = match find(&entries, "editor", "wrap") {
        Some(i) => match entries[i].flag {
            Some(flag) => WrapValue::Flag(flag),
            None => WrapValue::Other(entries[i].text.clone()),
        },
        None => WrapValue::Missing,
    };
    Ok((theme, wrap))
}

/// Reads the theme and wrap mode from the text of `config.toml` (`label`
/// names the file in warnings): what [`settings_from_parts`] decides for the
/// parts of the parsed document, or for the parser's error.
pub fn settings_from_toml(label: &str, text: &str, warnings: &mut Vec<String>) -> (res: (ThemeChoice, bool))
    ensures
        res.0 == settings_spec(label@, parsed_of(text@)).0,
        res.1 == settings_spec(label@, parsed_of(text@)).1,
        strings_view(final(warnings)@) == strings_view(old(warnings)@) + settings_spec(label@, parsed_of(text@)).2,
{
    let parsed = parse_settings(text);
    let ghost pv = parsed_view(parsed);
    let res = settings_from_parts(label, parsed, warnings);
    assert(res.0 == settings_spec(label@, pv).0);
    res
}

} // verus!
