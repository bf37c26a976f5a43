//! User configuration: native defaults, overridden by the global config
//! file.
use vstd::prelude::*;

use crate::text::{boundary, slice_text, str_eq, text_between, to_owned, utf8_bytes};

verus! {

broadcast use vstd::string::group_string_axioms;

/// The ids of the themes the application ships, in menu order.
pub open spec fn theme_id_table() -> Seq<Seq<char>> {
    seq!["solarized-light"@, "solarized-dark"@, "nord"@, "gruvbox-dark"@]
}

/// The ids of the available themes.
pub fn theme_ids() -> (r: Vec<&'static str>)
    ensures
        r@.map_values(|s: &str| s@) == theme_id_table(),
{
    let r = vec!["solarized-light", "solarized-dark", "nord", "gruvbox-dark"];
    assert(r@.map_values(|s: &str| s@) =~= theme_id_table());
    r
}

/// The id of the default theme.
pub open spec fn default_theme() -> Seq<char> {
    "solarized-light"@
}

/// User configuration loaded from the global TOML file.
#[derive(Debug, PartialEq, Eq)]
pub struct MemexConfig {
    pub theme: String,
}

impl Clone for MemexConfig {
    fn clone(&self) -> (r: Self)
        ensures
            r.theme@ == self.theme@,
    {
        MemexConfig { theme: self.theme.clone() }
    }
}

impl Default for MemexConfig {
    fn default() -> (r: Self)
        ensures
            r.theme@ == default_theme(),
    {
        MemexConfig { theme: to_owned("solarized-light") }
    }
}

/// The settings a config file may hold; every one is optional because the
/// file overrides native defaults.
#[derive(Debug, Default)]
pub struct ConfigFile {
    pub theme: Option<String>,
}

/// `ids` joined with `sep` between them.
pub open spec fn join(ids: Seq<Seq<char>>, sep: Seq<char>) -> Seq<char>
    decreases ids.len(),
{
    if ids.len() == 0 {
        Seq::<char>::empty()
    } else if ids.len() == 1 {
        ids[0]
    } else {
        join(ids.drop_last(), sep) + sep + ids.last()
    }
}

/// The message for a theme id that names no theme.
pub open spec fn unknown_theme_message(theme: Seq<char>) -> Seq<char> {
    "unknown theme '"@ + theme + "'; available themes: "@ + join(theme_id_table(), ", "@)
}

/// Whether a theme id names one of the available themes.
pub fn is_known_theme(theme: &str) -> (r: bool)
    ensures
        r == theme_id_table().contains(theme@),
{
    let ids = theme_ids();
    let mut i: usize = 0;
    while i < ids.len()
        invariant
            ids@.map_values(|s: &str| s@) == theme_id_table(),
            i <= ids@.len(),
            forall|j: int| 0 <= j < i ==> theme_id_table()[j] != theme@,
        decreases ids@.len() - i,
    {
        assert(theme_id_table()[i as int] == ids@[i as int]@);
        if str_eq(ids[i], theme) {
            return true;
        }
        i = i + 1;
    }
    false
}

/// The list of available theme ids, separated by ", ".
fn joined_theme_ids() -> (r: String)
    ensures
        r@ == join(theme_id_table(), ", "@),
{
    let ids = theme_ids();
    proof {
        assert(theme_id_table().len() == 4);
        assert(ids@.map_values(|s: &str| s@).len() == ids@.len());
    }
    let mut out = to_owned(ids[0]);
    let mut i: usize = 1;
    proof {
        assert(theme_id_table()[0] == ids@[0]@);
        assert(theme_id_table().take(1).len() == 1);
        assert(theme_id_table().take(1)[0] == theme_id_table()[0]);
    }
    while i < ids.len()
        invariant
            ids@.map_values(|s: &str| s@) == theme_id_table(),
            1 <= i <= ids@.len(),
            out@ == join(theme_id_table().take(i as int), ", "@),
        decreases ids@.len() - i,
    {
        out.append(", ");
        out.append(ids[i]);
        assert(theme_id_table()[i as int] == ids@[i as int]@);
        assert(theme_id_table().take(i + 1).drop_last() =~= theme_id_table().take(i as int));
        i = i + 1;
    }
    assert(theme_id_table().take(ids@.len() as int) =~= theme_id_table());
    out
}

/// The theme a configuration has after a file naming `file_theme` (if
/// any) is applied to one with theme `current`.
pub open spec fn applied_theme(current: Seq<char>, file_theme: Option<Seq<char>>) -> Seq<char> {
    match file_theme {
        Some(t) => if theme_id_table().contains(t) {
            t
        } else {
            current
        },
        None => current,
    }
}

/// The theme a config file names, viewed.
pub open spec fn file_theme(f: ConfigFile) -> Option<Seq<char>> {
    match f.theme {
        Some(t) => Some(t@),
        None => None,
    }
}

/// Applying a config file never leaves an unknown theme configured: a
/// configuration whose theme is one of the available themes keeps that
/// property whatever file is applied to it.
pub proof fn lemma_applied_theme_stays_known(current: Seq<char>, file_theme: Option<Seq<char>>)
    requires
        theme_id_table().contains(current),
    ensures
        theme_id_table().contains(applied_theme(current, file_theme)),
{
}

/// The default theme is one of the available themes.
pub proof fn lemma_default_theme_known()
    ensures
        theme_id_table().contains(default_theme()),
{
    assert(theme_id_table()[0] == default_theme());
}

impl ConfigFile {
    /// Applies the file to a configuration: a theme it names replaces the
    /// current one, provided a theme with that id exists; otherwise the
    /// configuration stays as it was and the error lists the themes there are.
    pub fn apply(self, config: &mut MemexConfig) -> (r: Result<(), String>)
        ensures
            final(config).theme@ == applied_theme(old(config).theme@, file_theme(self)),
            match self.theme {
                None => r is Ok && final(config).theme@ == old(config).theme@,
                Some(t) => if theme_id_table().contains(t@) {
                    r is Ok && final(config).theme@ == t@
                } else {
                    (r matches Err(e) && e@ == unknown_theme_message(t@)) && final(config).theme@
                        == old(config).theme@
                },
            },
    {
        match self.theme {
            Some(theme) => {
                if !is_known_theme(theme.as_str()) {
                    let mut msg = to_owned("unknown theme '");
                    msg.append(theme.as_str());
                    msg.append("'; available themes: ");
                    let ids = joined_theme_ids();
                    msg.append(ids.as_str());
                    return Err(msg);
                }
                config.theme = theme;
                Ok(())
            },
            None => Ok(()),
        }
    }
}

/// The configuration to run with: the native defaults, overridden by the
/// global config file when there is one. An error in the file leaves the
/// defaults in place and comes back for reporting.
pub fn load_config(file: Option<ConfigFile>) -> (r: (MemexConfig, Option<String>))
    ensures
        theme_id_table().contains(r.0.theme@),
        match file {
            None => r.0.theme@ == default_theme() && r.1 is None,
            Some(f) => match f.theme {
                None => r.0.theme@ == default_theme() && r.1 is None,
                Some(t) => if theme_id_table().contains(t@) {
                    r.0.theme@ == t@ && r.1 is None
                } else {
                    r.0.theme@ == default_theme() && (r.1 matches Some(e) && e@
                        == unknown_theme_message(t@))
                },
            },
        },
{
    let mut config = MemexConfig::default();
    proof {
        lemma_default_theme_known();
    }
    match file {
        Some(f) => match f.apply(&mut config) {
            Ok(()) => (config, None),
            Err(e) => (config, Some(e)),
        },
        None => (config, None),
    }
}

// ─── Writing the theme into an existing file ───────────────────────────────

/// How the `toml` crate writes a string value (`toml::Value::String`
/// displayed): a basic or literal string, with what escaping it needs.
pub uninterp spec fn toml_string_literal(s: Seq<char>) -> Seq<char>;

/// The TOML text for the string `s`, as the `toml` crate writes it.
#[verifier::external_body]
fn toml_string(s: &str) -> (r: String)
    ensures
        r@ == toml_string_literal(s@),
{
    toml::Value::String(s.to_string()).to_string()
}

/// The value text that replaces an existing theme value written as
/// `representation`: the same kind of quotes (three single quotes, one
/// single quote, three double quotes) around the new id, or, for a plain
/// basic string, the string as the `toml` crate writes it.
pub open spec fn theme_literal_spec(representation: Seq<char>, theme: Seq<char>) -> Seq<char> {
    if representation.len() >= 3 && representation.take(3) == seq!['\'', '\'', '\''] {
        seq!['\'', '\'', '\''] + theme + seq!['\'', '\'', '\'']
    } else if representation.len() >= 1 && representation[0] == '\'' {
        seq!['\''] + theme + seq!['\'']
    } else if representation.len() >= 3 && representation.take(3) == seq!['"', '"', '"'] {
        seq!['"', '"', '"'] + theme + seq!['"', '"', '"']
    } else {
        toml_string_literal(theme)
    }
}

/// Wraps `theme` in `n` copies of the quote `q` on each side.
fn quoted(q: char, n: usize, theme: &str) -> (r: String)
    requires
        n == 1 || n == 3,
    ensures
        r@ == Seq::new(n as nat, |i: int| q) + theme@ + Seq::new(n as nat, |i: int| q),
{
    let mut r = String::new();
    let mut i: usize = 0;
    while i < n
        invariant
            i <= n,
            r@ == Seq::new(i as nat, |j: int| q),
        decreases n - i,
    {
        crate::text::push_char(&mut r, q);
        i = i + 1;
        assert(r@ =~= Seq::new(i as nat, |j: int| q));
    }
    r.append(theme);
    let ghost mid = r@;
    let mut k: usize = 0;
    while k < n
        invariant
            k <= n,
            r@ == mid + Seq::new(k as nat, |j: int| q),
        decreases n - k,
    {
        crate::text::push_char(&mut r, q);
        k = k + 1;
        assert(r@ =~= mid + Seq::new(k as nat, |j: int| q));
    }
    r
}

/// The value text for the new theme, in the quoting style of the old one.
pub fn theme_literal(representation: &str, theme: &str) -> (r: String)
    ensures
        r@ == theme_literal_spec(representation@, theme@),
{
    let n = representation.unicode_len();
    let triple_single = n >= 3 && representation.get_char(0) == '\'' && representation.get_char(1)
        == '\'' && representation.get_char(2) == '\'';
    let triple_double = n >= 3 && representation.get_char(0) == '"' && representation.get_char(1)
        == '"' && representation.get_char(2) == '"';
    proof {
        let rep = representation@;
        if n >= 3 {
            if rep.take(3) == seq!['\'', '\'', '\''] || rep.take(3) == seq!['"', '"', '"'] {
                assert(rep.take(3)[0] == rep[0]);
                assert(rep.take(3)[1] == rep[1]);
                assert(rep.take(3)[2] == rep[2]);
            }
            if triple_single {
                assert(rep.take(3) =~= seq!['\'', '\'', '\'']);
            }
            if triple_double {
                assert(rep.take(3) =~= seq!['"', '"', '"']);
            }
        }
        assert(Seq::new(3, |i: int| '\'') =~= seq!['\'', '\'', '\'']);
        assert(Seq::new(1, |i: int| '\'') =~= seq!['\'']);
        assert(Seq::new(3, |i: int| '"') =~= seq!['"', '"', '"']);
    }
    if triple_single {
        quoted('\'', 3, theme)
    } else if n >= 1 && representation.get_char(0) == '\'' {
        quoted('\'', 1, theme)
    } else if triple_double {
        quoted('"', 3, theme)
    } else {
        toml_string(theme)
    }
}

/// `source` with the bytes from `start` to `end` replaced by `replacement`.
pub fn replace_span(source: &str, start: usize, end: usize, replacement: &str) -> (r: String)
    requires
        start <= end <= utf8_bytes(source@).len(),
        boundary(utf8_bytes(source@), start as int),
        boundary(utf8_bytes(source@), end as int),
    ensures
        r@ == text_between(source@, 0, start as int) + replacement@ + text_between(
            source@,
            end as int,
            utf8_bytes(source@).len() as int,
        ),
{
    let len = source.as_bytes().len();
    proof {
        crate::text::lemma_boundary_ends(source@);
    }
    let mut r = to_owned(slice_text(source, 0, start));
    r.append(replacement);
    r.append(slice_text(source, end, len));
    r
}

/// What the `toml_edit` crate finds for the key `theme` when it parses
/// `source` (`ImDocument::parse`, then `get("theme")`): the parse error's
/// message, or whether the key is there, and then whether its value is a
/// string and the byte range of its value text (`Item::span`), if known.
pub uninterp spec fn toml_theme_item(source: Seq<char>) -> Result<Option<(bool, Option<(int, int)>)>, Seq<char>>;

/// The text `toml_edit` writes for `source` once the key `theme` is set to
/// the string `theme` (`ImDocument::into_mut`, `doc["theme"] = value(..)`,
/// then the document displayed).
pub uninterp spec fn toml_with_theme_added(source: Seq<char>, theme: Seq<char>) -> Seq<char>;

/// The theme item found as plain values.
pub open spec fn theme_item_view(r: Result<Option<(bool, Option<(usize, usize)>)>, String>) -> Result<
    Option<(bool, Option<(int, int)>)>,
    Seq<char>,
> {
    match r {
        Err(e) => Err(e@),
        Ok(None) => Ok(None),
        Ok(Some((is_str, None))) => Ok(Some((is_str, None))),
        Ok(Some((is_str, Some((a, b))))) => Ok(Some((is_str, Some((a as int, b as int))))),
    }
}

/// Parses `source` with `toml_edit` and looks up the key `theme`.
#[verifier::external_body]
fn theme_item(source: &str) -> (r: Result<Option<(bool, Option<(usize, usize)>)>, String>)
    ensures
        theme_item_view(r) == toml_theme_item(source@),
{
    let doc = match toml_edit::ImDocument::parse(source) {
        Ok(doc) => doc,
        Err(error) => return Err(error.to_string()),
    };
    match doc.get("theme") {
        None => Ok(None),
        Some(item) => Ok(Some((item.as_value().and_then(|v| v.as_str()).is_some(), item.span().map(|r| (r.start, r.end))))),
    }
}

/// Sets the key `theme` of the TOML text `source`, which parses and has no
/// such key, with `toml_edit`.
#[verifier::external_body]
fn add_theme_key(source: &str, theme: &str) -> (r: String)
    requires
        toml_theme_item(source@) == Ok::<Option<(bool, Option<(int, int)>)>, Seq<char>>(None),
    ensures
        r@ == toml_with_theme_added(source@, theme@),
{
    match toml_edit::ImDocument::parse(source) {
        Ok(doc) => {
            let mut doc = doc.into_mut();
            doc["theme"] = toml_edit::value(theme);
            doc.to_string()
        },
        Err(_) => source.to_string(),
    }
}

/// Why the theme could not be written into a configuration text.
#[derive(Debug, PartialEq, Eq)]
pub enum ThemeTextError {
    /// The text is not TOML; the parser's message.
    InvalidToml(String),
    /// The key `theme` holds something other than a string.
    NotAString,
    /// Where the value of `theme` lies in the text is not known.
    NotLocated,
}

/// What a theme text error holds.
pub enum ThemeTextErrorView {
    InvalidToml(Seq<char>),
    NotAString,
    NotLocated,
}

/// A theme text result as plain values.
pub open spec fn themed_text_view(r: Result<String, ThemeTextError>) -> Result<Seq<char>, ThemeTextErrorView> {
    match r {
        Ok(t) => Ok(t@),
        Err(ThemeTextError::InvalidToml(m)) => Err(ThemeTextErrorView::InvalidToml(m@)),
        Err(ThemeTextError::NotAString) => Err(ThemeTextErrorView::NotAString),
        Err(ThemeTextError::NotLocated) => Err(ThemeTextErrorView::NotLocated),
    }
}

/// The configuration text `source` with its theme set to `theme`: an
/// existing string value is replaced in place, in the same quoting style,
/// leaving the rest of the text as it was; with no `theme` key, the key is
/// added as `toml_edit` adds it.
pub open spec fn themed_config_spec(source: Seq<char>, theme: Seq<char>) -> Result<Seq<char>, ThemeTextErrorView> {
    let b = utf8_bytes(source);
    match toml_theme_item(source) {
        Err(e) => Err(ThemeTextErrorView::InvalidToml(e)),
        Ok(None) => Ok(toml_with_theme_added(source, theme)),
        Ok(Some((is_str, span))) => if !is_str {
            Err(ThemeTextErrorView::NotAString)
        } else {
            match span {
                Some((s, e)) => if 0 <= s <= e <= b.len() && boundary(b, s) && boundary(b, e) {
                    Ok(text_between(source, 0, s) + theme_literal_spec(text_between(source, s, e), theme)
                        + text_between(source, e, b.len() as int))
                } else {
                    Err(ThemeTextErrorView::NotLocated)
                },
                None => Err(ThemeTextErrorView::NotLocated),
            }
        },
    }
}

/// The configuration text `source` with its theme set to `theme`.
pub fn themed_config_text(source: &str, theme: &str) -> (r: Result<String, ThemeTextError>)
    ensures
        themed_text_view(r) == themed_config_spec(source@, theme@),
{
    match theme_item(source) {
        Err(message) => Err(ThemeTextError::InvalidToml(message)),
        Ok(None) => Ok(add_theme_key(source, theme)),
        Ok(Some((is_str, span))) => {
            if !is_str {
                return Err(ThemeTextError::NotAString);
            }
            match span {
                None => Err(ThemeTextError::NotLocated),
                Some((start, end)) => {
                    let bytes = source.as_bytes();
                    let len = bytes.len();
                    if start > end || end > len {
                        return Err(ThemeTextError::NotLocated);
                    }
                    let start_ok = start == len || !(bytes[start] >= 0x80 && bytes[start] <= 0xbf);
                    let end_ok = end == len || !(bytes[end] >= 0x80 && bytes[end] <= 0xbf);
                    if !start_ok || !end_ok {
                        return Err(ThemeTextError::NotLocated);
                    }
                    let replacement = theme_literal(slice_text(source, start, end), theme);
                    Ok(replace_span(source, start, end, replacement.as_str()))
                },
            }
        },
    }
}

} // verus!
