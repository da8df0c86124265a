//! `config.toml` as text: what the library reads of it, and the changes it makes to it.
//!
//! The document is parsed, read and edited by `toml_edit`, which keeps its comments and
//! layout. Each of the editor's operations used here is named below by what it makes of a
//! text; the functions of this module read the facts their decisions need, decide the
//! changes (`config_edit`), and apply them one after the other to the text.
use vstd::prelude::*;

use toml_edit::{value, Array, DocumentMut, Item, Table, Value};

use crate::agents::{utf8_bytes, utf8_error_text, utf8_text};
use crate::config_edit::{
    entry_not_table_text, image_removal, image_server_changes, image_server_edits,
    kept_comment_text, kept_comments, model_of, models, not_table_text, parses_as_empty,
    provider_section_edits, providers_not_table_text, relay_default_changes, relay_default_edits,
    section_changes, servers_not_table_text, texts_of, top_level_provider_edit,
    trailing_with_comments, ConfigEdit, EditModel, EntryKind, ImageRemoval, ImageRemovalFacts, ImageServerFacts,
    ProviderSectionFacts, ScalarFact, ScalarSeen, SectionView,
};
use crate::error::AppError;
use crate::store::ProviderConfigRow;
use crate::text::{
    all_ws, chars_of, concat, contains, contains_seq, eq_ignore_case, lit, lower, lower_vec, str_eq,
    to_text,
};
use vstd::utf8::{decode_utf8, encode_utf8, valid_utf8};

verus! {

broadcast use vstd::string::group_string_axioms;

pub open spec fn text_view(o: Option<String>) -> Option<Seq<char>> {
    match o {
        Some(s) => Some(s@),
        None => None,
    }
}

// ---------------------------------------------------------------------------
// The editor's operations
// ---------------------------------------------------------------------------

/// The message of `toml_edit`'s error for a text that is not a TOML document; none for
/// one that is.
pub uninterp spec fn toml_parse_error(text: Seq<char>) -> Option<Seq<char>>;

/// What the top-level `key` of the document holds (`Absent` where it does not parse).
pub uninterp spec fn toml_top_kind(text: Seq<char>, key: Seq<char>) -> EntryKind;

/// What `key` holds in the top-level table `table` (`Absent` where that is no table of its
/// own).
pub uninterp spec fn toml_sub_kind(text: Seq<char>, table: Seq<char>, key: Seq<char>) -> EntryKind;

/// The string or boolean the top-level `key` holds.
pub uninterp spec fn toml_top_scalar(text: Seq<char>, key: Seq<char>) -> ScalarSeen;

/// The string or boolean `key` holds in the table `[t1.t2]` (both tables of their own).
pub uninterp spec fn toml_sub_scalar(
    text: Seq<char>,
    t1: Seq<char>,
    t2: Seq<char>,
    key: Seq<char>,
) -> ScalarSeen;

/// The string or boolean `key` holds in `t1.t2`, where both are tables of their own or
/// inline.
pub uninterp spec fn toml_like_scalar(
    text: Seq<char>,
    t1: Seq<char>,
    t2: Seq<char>,
    key: Seq<char>,
) -> ScalarSeen;

/// The keys of the top-level `table`, in order, where it is a table (of its own or inline).
pub uninterp spec fn toml_sub_keys(text: Seq<char>, table: Seq<char>) -> Option<Seq<Seq<char>>>;

/// The text with the empty top-level table `key` put in.
pub uninterp spec fn toml_top_table_added(text: Seq<char>, key: Seq<char>) -> Option<Seq<char>>;

/// The text with the empty table `key` put in the top-level table `table`.
pub uninterp spec fn toml_sub_table_added(
    text: Seq<char>,
    table: Seq<char>,
    key: Seq<char>,
) -> Option<Seq<char>>;

/// The text with the top-level `key` set to the string `v`, keeping the decoration of the
/// value it replaces.
pub uninterp spec fn toml_top_text_set(text: Seq<char>, key: Seq<char>, v: Seq<char>) -> Option<
    Seq<char>,
>;

/// The text with the top-level `key` set to the boolean `b`, keeping the decoration of the
/// value it replaces.
pub uninterp spec fn toml_top_flag_set(text: Seq<char>, key: Seq<char>, b: bool) -> Option<
    Seq<char>,
>;

/// The text with `key` set to the string `v` in `[t1.t2]`, whose absent tables are added as
/// implicit ones, keeping the decoration of the value it replaces.
pub uninterp spec fn toml_sub_text_set(
    text: Seq<char>,
    t1: Seq<char>,
    t2: Seq<char>,
    key: Seq<char>,
    v: Seq<char>,
) -> Option<Seq<char>>;

/// As `toml_sub_text_set`, for the boolean `b`.
pub uninterp spec fn toml_sub_flag_set(
    text: Seq<char>,
    t1: Seq<char>,
    t2: Seq<char>,
    key: Seq<char>,
    b: bool,
) -> Option<Seq<char>>;

/// The text with `key` set to the integer `n` in `[t1.t2]`, whose absent tables are added
/// as implicit ones.
pub uninterp spec fn toml_sub_number_set(
    text: Seq<char>,
    t1: Seq<char>,
    t2: Seq<char>,
    key: Seq<char>,
    n: int,
) -> Option<Seq<char>>;

/// The text with `key` set to an empty array in `[t1.t2]`, whose absent tables are added
/// as implicit ones.
pub uninterp spec fn toml_sub_empty_list_set(
    text: Seq<char>,
    t1: Seq<char>,
    t2: Seq<char>,
    key: Seq<char>,
) -> Option<Seq<char>>;

/// The text with `key` taken out of the top-level `table` (of its own or inline), and the
/// text before and after what was taken out (its decoration, where it is a table or a
/// value).
pub uninterp spec fn toml_sub_removed(text: Seq<char>, table: Seq<char>, key: Seq<char>) -> Option<
    (Seq<char>, Option<Seq<char>>, Option<Seq<char>>),
>;

/// The text with the top-level `key` taken out, and the decoration of what was taken out.
pub uninterp spec fn toml_top_removed(text: Seq<char>, key: Seq<char>) -> Option<
    (Seq<char>, Option<Seq<char>>, Option<Seq<char>>),
>;

/// What follows the last item of the document.
pub uninterp spec fn toml_trailing(text: Seq<char>) -> Option<Seq<char>>;

/// The text with `trailing` as what follows the last item of the document.
pub uninterp spec fn toml_trailing_set(text: Seq<char>, trailing: Seq<char>) -> Option<Seq<char>>;

pub open spec fn removal_view(o: Option<(String, Option<String>, Option<String>)>) -> Option<
    (Seq<char>, Option<Seq<char>>, Option<Seq<char>>),
> {
    match o {
        Some((t, p, s)) => Some((t@, text_view(p), text_view(s))),
        None => None,
    }
}

/// `toml_edit`'s `DocumentMut` parser: the message of its error, if any.
#[verifier::external_body]
fn parse_error(text: &str) -> (r: Option<String>)
    ensures
        text_view(r) == toml_parse_error(text@),
{
    text.parse::<DocumentMut>().err().map(|error| error.to_string())
}

/// `toml_edit`: the kind of item `DocumentMut::get(key)` finds.
#[verifier::external_body]
fn top_kind(text: &str, key: &str) -> (r: EntryKind)
    ensures
        r == toml_top_kind(text@, key@),
{
    let document = match text.parse::<DocumentMut>() {
        Ok(document) => document,
        Err(_) => return EntryKind::Absent,
    };
    match document.get(key) {
        None | Some(Item::None) => EntryKind::Absent,
        Some(Item::Table(_)) => EntryKind::Table,
        Some(Item::Value(Value::InlineTable(_))) => EntryKind::InlineTable,
        Some(_) => EntryKind::Other,
    }
}

/// `toml_edit`: the kind of item `key` is in the table `table` (`Item::as_table`).
#[verifier::external_body]
fn sub_kind(text: &str, table: &str, key: &str) -> (r: EntryKind)
    ensures
        r == toml_sub_kind(text@, table@, key@),
{
    let document = match text.parse::<DocumentMut>() {
        Ok(document) => document,
        Err(_) => return EntryKind::Absent,
    };
    match document.get(table).and_then(Item::as_table).and_then(|t| t.get(key)) {
        None | Some(Item::None) => EntryKind::Absent,
        Some(Item::Table(_)) => EntryKind::Table,
        Some(Item::Value(Value::InlineTable(_))) => EntryKind::InlineTable,
        Some(_) => EntryKind::Other,
    }
}

/// `toml_edit`: `Item::as_str` or `Item::as_bool` of the top-level `key`.
#[verifier::external_body]
fn top_scalar(text: &str, key: &str) -> (r: ScalarFact)
    ensures
        r@ == toml_top_scalar(text@, key@),
{
    let document = match text.parse::<DocumentMut>() {
        Ok(document) => document,
        Err(_) => return ScalarFact::Missing,
    };
    match document.get(key) {
        Some(Item::Value(Value::String(s))) => ScalarFact::Text(s.value().clone()),
        Some(Item::Value(Value::Boolean(b))) => ScalarFact::Flag(*b.value()),
        _ => ScalarFact::Missing,
    }
}

/// `toml_edit`: `Item::as_str` or `Item::as_bool` of `key` in `[t1.t2]`.
#[verifier::external_body]
fn sub_scalar(text: &str, t1: &str, t2: &str, key: &str) -> (r: ScalarFact)
    ensures
        r@ == toml_sub_scalar(text@, t1@, t2@, key@),
{
    let document = match text.parse::<DocumentMut>() {
        Ok(document) => document,
        Err(_) => return ScalarFact::Missing,
    };
    let outer = document.get(t1).and_then(Item::as_table).and_then(|t| t.get(t2));
    match outer.and_then(Item::as_table).and_then(|t| t.get(key)) {
        Some(Item::Value(Value::String(s))) => ScalarFact::Text(s.value().clone()),
        Some(Item::Value(Value::Boolean(b))) => ScalarFact::Flag(*b.value()),
        _ => ScalarFact::Missing,
    }
}

/// `toml_edit`: `Item::as_str` or `Item::as_bool` of `key` in `t1.t2`, through
/// `Item::as_table_like`.
#[verifier::external_body]
fn like_scalar(text: &str, t1: &str, t2: &str, key: &str) -> (r: ScalarFact)
    ensures
        r@ == toml_like_scalar(text@, t1@, t2@, key@),
{
    let document = match text.parse::<DocumentMut>() {
        Ok(document) => document,
        Err(_) => return ScalarFact::Missing,
    };
    let outer = document.get(t1).and_then(Item::as_table_like).and_then(|t| t.get(t2));
    match outer.and_then(Item::as_table_like).and_then(|t| t.get(key)) {
        Some(Item::Value(Value::String(s))) => ScalarFact::Text(s.value().clone()),
        Some(Item::Value(Value::Boolean(b))) => ScalarFact::Flag(*b.value()),
        _ => ScalarFact::Missing,
    }
}

/// `toml_edit`: the keys `TableLike::iter` gives of the top-level `table`.
#[verifier::external_body]
fn sub_keys(text: &str, table: &str) -> (r: Option<Vec<String>>)
    ensures
        (match r {
            Some(v) => Some(v@.map_values(|k: String| k@)),
            None => None,
        }) == toml_sub_keys(text@, table@),
{
    let document = text.parse::<DocumentMut>().ok()?;
    let like = document.get(table).and_then(Item::as_table_like)?;
    Some(like.iter().map(|(key, _)| key.to_string()).collect())
}

/// `toml_edit`: `Table::insert` of an empty `Table` at the top, then the document printed.
#[verifier::external_body]
fn top_table_added(text: &str, key: &str) -> (r: Option<String>)
    ensures
        text_view(r) == toml_top_table_added(text@, key@),
{
    let mut document = text.parse::<DocumentMut>().ok()?;
    document.insert(key, Item::Table(Table::new()));
    Some(document.to_string())
}

/// `toml_edit`: `Table::insert` of an empty `Table` in the top-level table `table`.
#[verifier::external_body]
fn sub_table_added(text: &str, table: &str, key: &str) -> (r: Option<String>)
    ensures
        text_view(r) == toml_sub_table_added(text@, table@, key@),
{
    let mut document = text.parse::<DocumentMut>().ok()?;
    document.get_mut(table)?.as_table_mut()?.insert(key, Item::Table(Table::new()));
    Some(document.to_string())
}

/// `toml_edit`: a string value put at the top in place of the old one, with its decor.
#[verifier::external_body]
fn top_text_set(text: &str, key: &str, v: &str) -> (r: Option<String>)
    ensures
        text_view(r) == toml_top_text_set(text@, key@, v@),
{
    let mut document = text.parse::<DocumentMut>().ok()?;
    let decor = document.get(key).and_then(Item::as_value).map(|c| c.decor().clone());
    let mut cell = Value::from(v);
    *cell.decor_mut() = decor.unwrap_or_default();
    document.insert(key, Item::Value(cell));
    Some(document.to_string())
}

/// `toml_edit`: a boolean value put at the top in place of the old one, with its decor.
#[verifier::external_body]
fn top_flag_set(text: &str, key: &str, b: bool) -> (r: Option<String>)
    ensures
        text_view(r) == toml_top_flag_set(text@, key@, b),
{
    let mut document = text.parse::<DocumentMut>().ok()?;
    let decor = document.get(key).and_then(Item::as_value).map(|c| c.decor().clone());
    let mut cell = Value::from(b);
    *cell.decor_mut() = decor.unwrap_or_default();
    document.insert(key, Item::Value(cell));
    Some(document.to_string())
}

/// `toml_edit`: a string value put in `[t1.t2]` (`Entry::or_insert` of implicit tables) in
/// place of the old one, with its decor.
#[verifier::external_body]
fn sub_text_set(text: &str, t1: &str, t2: &str, key: &str, v: &str) -> (r: Option<String>)
    ensures
        text_view(r) == toml_sub_text_set(text@, t1@, t2@, key@, v@),
{
    let mut document = text.parse::<DocumentMut>().ok()?;
    let mut fresh = Table::new();
    fresh.set_implicit(true);
    let outer = document.entry(t1).or_insert(Item::Table(fresh.clone())).as_table_mut()?;
    let table = outer.entry(t2).or_insert(Item::Table(fresh)).as_table_mut()?;
    let decor = table.get(key).and_then(Item::as_value).map(|c| c.decor().clone());
    let mut cell = Value::from(v);
    *cell.decor_mut() = decor.unwrap_or_default();
    table.insert(key, Item::Value(cell));
    Some(document.to_string())
}

/// `toml_edit`: a boolean value put in `[t1.t2]` as `sub_text_set` puts a string.
#[verifier::external_body]
fn sub_flag_set(text: &str, t1: &str, t2: &str, key: &str, b: bool) -> (r: Option<String>)
    ensures
        text_view(r) == toml_sub_flag_set(text@, t1@, t2@, key@, b),
{
    let mut document = text.parse::<DocumentMut>().ok()?;
    let mut fresh = Table::new();
    fresh.set_implicit(true);
    let outer = document.entry(t1).or_insert(Item::Table(fresh.clone())).as_table_mut()?;
    let table = outer.entry(t2).or_insert(Item::Table(fresh)).as_table_mut()?;
    let decor = table.get(key).and_then(Item::as_value).map(|c| c.decor().clone());
    let mut cell = Value::from(b);
    *cell.decor_mut() = decor.unwrap_or_default();
    table.insert(key, Item::Value(cell));
    Some(document.to_string())
}

/// `toml_edit`: `Table::insert` of an integer value in `[t1.t2]` (`Entry::or_insert` of
/// implicit tables).
#[verifier::external_body]
fn sub_number_set(text: &str, t1: &str, t2: &str, key: &str, n: i64) -> (r: Option<String>)
    ensures
        text_view(r) == toml_sub_number_set(text@, t1@, t2@, key@, n as int),
{
    let mut document = text.parse::<DocumentMut>().ok()?;
    let mut fresh = Table::new();
    fresh.set_implicit(true);
    let outer = document.entry(t1).or_insert(Item::Table(fresh.clone())).as_table_mut()?;
    let table = outer.entry(t2).or_insert(Item::Table(fresh)).as_table_mut()?;
    table.insert(key, value(n));
    Some(document.to_string())
}

/// `toml_edit`: `Table::insert` of an empty `Array` in `[t1.t2]` (`Entry::or_insert` of
/// implicit tables).
#[verifier::external_body]
fn sub_empty_list_set(text: &str, t1: &str, t2: &str, key: &str) -> (r: Option<String>)
    ensures
        text_view(r) == toml_sub_empty_list_set(text@, t1@, t2@, key@),
{
    let mut document = text.parse::<DocumentMut>().ok()?;
    let mut fresh = Table::new();
    fresh.set_implicit(true);
    let outer = document.entry(t1).or_insert(Item::Table(fresh.clone())).as_table_mut()?;
    let table = outer.entry(t2).or_insert(Item::Table(fresh)).as_table_mut()?;
    table.insert(key, value(Array::new()));
    Some(document.to_string())
}

/// `toml_edit`: `TableLike::remove` of `key` from the top-level `table`, with the prefix
/// and suffix of the removed item's decor (`RawString::as_str`, empty where it has none).
#[verifier::external_body]
fn sub_removed(text: &str, table: &str, key: &str) -> (r: Option<(String, Option<String>, Option<String>)>)
    ensures
        removal_view(r) == toml_sub_removed(text@, table@, key@),
{
    let mut document = text.parse::<DocumentMut>().ok()?;
    let removed = document.get_mut(table)?.as_table_like_mut()?.remove(key);
    let (prefix, suffix) = match &removed {
        Some(Item::Table(t)) => (t.decor().prefix(), t.decor().suffix()),
        Some(Item::Value(v)) => (v.decor().prefix(), v.decor().suffix()),
        _ => (None, None),
    };
    let prefix = prefix.map(|raw| raw.as_str().unwrap_or_default().to_string());
    Some((document.to_string(), prefix, suffix.map(|raw| raw.as_str().unwrap_or_default().to_string())))
}

/// `toml_edit`: `Table::remove` of the top-level `key`, with the prefix and suffix of the
/// removed item's decor.
#[verifier::external_body]
fn top_removed(text: &str, key: &str) -> (r: Option<(String, Option<String>, Option<String>)>)
    ensures
        removal_view(r) == toml_top_removed(text@, key@),
{
    let mut document = text.parse::<DocumentMut>().ok()?;
    let removed = document.remove(key);
    let (prefix, suffix) = match &removed {
        Some(Item::Table(t)) => (t.decor().prefix(), t.decor().suffix()),
        Some(Item::Value(v)) => (v.decor().prefix(), v.decor().suffix()),
        _ => (None, None),
    };
    let prefix = prefix.map(|raw| raw.as_str().unwrap_or_default().to_string());
    Some((document.to_string(), prefix, suffix.map(|raw| raw.as_str().unwrap_or_default().to_string())))
}

/// `toml_edit`: `DocumentMut::trailing` (empty where it is no plain text).
#[verifier::external_body]
fn trailing(text: &str) -> (r: Option<String>)
    ensures
        text_view(r) == toml_trailing(text@),
{
    let document = text.parse::<DocumentMut>().ok()?;
    Some(document.trailing().as_str().unwrap_or_default().to_string())
}

/// `toml_edit`: `DocumentMut::set_trailing`, then the document printed.
#[verifier::external_body]
fn trailing_set(text: &str, trailing: &str) -> (r: Option<String>)
    ensures
        text_view(r) == toml_trailing_set(text@, trailing@),
{
    let mut document = text.parse::<DocumentMut>().ok()?;
    document.set_trailing(trailing);
    Some(document.to_string())
}

// ---------------------------------------------------------------------------
// Applying changes
// ---------------------------------------------------------------------------

/// What one change makes of the text: tables are added at the top or in a top-level
/// table, values set at the top or two tables down; a change anywhere else is refused.
pub open spec fn edit_applied(text: Seq<char>, e: EditModel) -> Option<Seq<char>> {
    match e {
        EditModel::AddTable(p, k) => if p.len() == 0 {
            toml_top_table_added(text, k)
        } else if p.len() == 1 {
            toml_sub_table_added(text, p[0], k)
        } else {
            None
        },
        EditModel::SetText(p, k, v) => if p.len() == 0 {
            toml_top_text_set(text, k, v)
        } else if p.len() == 2 {
            toml_sub_text_set(text, p[0], p[1], k, v)
        } else {
            None
        },
        EditModel::SetFlag(p, k, b) => if p.len() == 0 {
            toml_top_flag_set(text, k, b)
        } else if p.len() == 2 {
            toml_sub_flag_set(text, p[0], p[1], k, b)
        } else {
            None
        },
        EditModel::SetNumber(p, k, n) => if p.len() == 2 {
            toml_sub_number_set(text, p[0], p[1], k, n)
        } else {
            None
        },
        EditModel::SetEmptyList(p, k) => if p.len() == 2 {
            toml_sub_empty_list_set(text, p[0], p[1], k)
        } else {
            None
        },
    }
}

/// What the changes make of the text, applied in order; none once one of them is refused.
pub open spec fn edits_applied(text: Seq<char>, edits: Seq<EditModel>) -> Option<Seq<char>>
    decreases edits.len(),
{
    if edits.len() == 0 {
        Some(text)
    } else {
        match edits_applied(text, edits.drop_last()) {
            Some(t) => edit_applied(t, edits.last()),
            None => None,
        }
    }
}

proof fn lemma_refusal_stays(text: Seq<char>, edits: Seq<EditModel>, k: int)
    requires
        0 <= k <= edits.len(),
        edits_applied(text, edits.take(k)) is None,
    ensures
        edits_applied(text, edits) is None,
    decreases edits.len() - k,
{
    if k < edits.len() {
        assert(edits.take(k + 1).drop_last() =~= edits.take(k));
        lemma_refusal_stays(text, edits, k + 1);
    } else {
        assert(edits.take(k) =~= edits);
    }
}

proof fn lemma_single_edit(text: Seq<char>, e: EditModel)
    ensures
        edits_applied(text, seq![e]) == edit_applied(text, e),
{
    assert(seq![e].drop_last() =~= Seq::<EditModel>::empty());
    assert(edits_applied(text, Seq::<EditModel>::empty()) == Some(text));
    assert(seq![e].last() == e);
}

/// What one change makes of the text.
fn apply_edit(text: &str, e: &ConfigEdit) -> (r: Option<String>)
    ensures
        text_view(r) == edit_applied(text@, model_of(*e)),
{
    match e {
        ConfigEdit::AddTable { path, key } => {
            if path.len() == 0 {
                top_table_added(text, key.as_str())
            } else if path.len() == 1 {
                sub_table_added(text, path[0].as_str(), key.as_str())
            } else {
                None
            }
        },
        ConfigEdit::SetText { path, key, value } => {
            if path.len() == 0 {
                top_text_set(text, key.as_str(), value.as_str())
            } else if path.len() == 2 {
                sub_text_set(text, path[0].as_str(), path[1].as_str(), key.as_str(), value.as_str())
            } else {
                None
            }
        },
        ConfigEdit::SetFlag { path, key, value } => {
            if path.len() == 0 {
                top_flag_set(text, key.as_str(), *value)
            } else if path.len() == 2 {
                sub_flag_set(text, path[0].as_str(), path[1].as_str(), key.as_str(), *value)
            } else {
                None
            }
        },
        ConfigEdit::SetNumber { path, key, value } => {
            if path.len() == 2 {
                sub_number_set(text, path[0].as_str(), path[1].as_str(), key.as_str(), *value)
            } else {
                None
            }
        },
        ConfigEdit::SetEmptyList { path, key } => {
            if path.len() == 2 {
                sub_empty_list_set(text, path[0].as_str(), path[1].as_str(), key.as_str())
            } else {
                None
            }
        },
    }
}

/// The text with the changes applied in order; `None` where one of them is refused.
pub fn apply_config_edits(text: &str, edits: &Vec<ConfigEdit>) -> (r: Option<String>)
    ensures
        text_view(r) == edits_applied(text@, models(edits@)),
{
    let ghost all = models(edits@);
    let mut current = text.to_string();
    let mut i: usize = 0;
    assert(all.take(0) =~= Seq::<EditModel>::empty());
    while i < edits.len()
        invariant
            i <= edits@.len(),
            all == models(edits@),
            all.len() == edits@.len(),
            edits_applied(text@, all.take(i as int)) == Some(current@),
        decreases edits@.len() - i,
    {
        assert(all.take(i + 1).drop_last() =~= all.take(i as int));
        assert(all.take(i + 1).last() == model_of(edits@[i as int]));
        match apply_edit(current.as_str(), &edits[i]) {
            Some(next) => {
                current = next;
            },
            None => {
                proof {
                    lemma_refusal_stays(text@, all, i + 1);
                }
                return None;
            },
        }
        i = i + 1;
    }
    assert(all.take(i as int) =~= all);
    Some(current)
}

// ---------------------------------------------------------------------------
// Reading and writing `config.toml`
// ---------------------------------------------------------------------------

/// A text of white space only is read as an empty document.
pub open spec fn base_text(content: Seq<char>) -> Seq<char> {
    if all_ws(content) {
        seq![]
    } else {
        content
    }
}

fn base_of(content: &str) -> (r: String)
    ensures
        r@ == base_text(content@),
{
    if parses_as_empty(content) {
        String::new()
    } else {
        content.to_string()
    }
}

pub open spec fn parse_failed_text(m: Seq<char>) -> Seq<char> {
    "config.toml 解析失败: "@ + m
}

pub open spec fn format_failed_text(m: Seq<char>) -> Seq<char> {
    "Codex 配置格式错误："@ + m
}

/// The message where the editor refuses a change the facts read allowed.
pub open spec fn edit_failed_text() -> Seq<char> {
    "config.toml 修改失败"@
}

fn parse_failure(m: &str) -> (r: AppError)
    ensures
        r is Message && r.text() == parse_failed_text(m@),
{
    AppError::Message(to_text(&concat(&lit("config.toml 解析失败: "), &chars_of(m))))
}

fn edit_failure_message() -> (r: String)
    ensures
        r@ == edit_failed_text(),
{
    to_text(&lit("config.toml 修改失败"))
}

/// The outcome of a function that writes the text, the error as its message.
pub open spec fn outcome_matches(r: Result<String, AppError>, o: Result<Seq<char>, Seq<char>>) -> bool {
    match o {
        Ok(t) => r matches Ok(s) && s@ == t,
        Err(m) => r matches Err(e) && e is Message && e.text() == m,
    }
}

/// What the document holds where provider `id`'s section is written.
pub open spec fn section_seen(text: Seq<char>, id: Seq<char>) -> SectionView {
    let p = "model_providers"@;
    SectionView {
        providers: toml_top_kind(text, p),
        entry: toml_sub_kind(text, p, id),
        name: toml_sub_scalar(text, p, id, "name"@),
        base_url: toml_sub_scalar(text, p, id, "base_url"@),
        wire_api: toml_sub_scalar(text, p, id, "wire_api"@),
        requires_openai_auth: toml_sub_scalar(text, p, id, "requires_openai_auth"@),
        bearer_token: toml_sub_scalar(text, p, id, "experimental_bearer_token"@),
    }
}

/// Reads what the document holds where provider `provider_id`'s section is written.
pub fn provider_section_facts(text: &str, provider_id: &str) -> (r: ProviderSectionFacts)
    ensures
        r@ == section_seen(text@, provider_id@),
{
    let p = "model_providers";
    ProviderSectionFacts {
        providers: top_kind(text, p),
        entry: sub_kind(text, p, provider_id),
        name: sub_scalar(text, p, provider_id, "name"),
        base_url: sub_scalar(text, p, provider_id, "base_url"),
        wire_api: sub_scalar(text, p, provider_id, "wire_api"),
        requires_openai_auth: sub_scalar(text, p, provider_id, "requires_openai_auth"),
        bearer_token: sub_scalar(text, p, provider_id, "experimental_bearer_token"),
    }
}

/// Writing provider `id`'s section from `row` into `content`: a parse error, a
/// `model_providers` or entry that is no table of its own, or the text with the section's
/// changes applied.
pub open spec fn section_written(
    content: Seq<char>,
    id: Seq<char>,
    row: ProviderConfigRow,
    include_key: bool,
) -> Result<Seq<char>, Seq<char>> {
    let base = base_text(content);
    match toml_parse_error(base) {
        Some(m) => Err(parse_failed_text(m)),
        None => {
            let f = section_seen(base, id);
            if f.providers == EntryKind::InlineTable || f.providers == EntryKind::Other {
                Err(providers_not_table_text())
            } else if f.providers == EntryKind::Table && (f.entry == EntryKind::InlineTable
                || f.entry == EntryKind::Other) {
                Err(entry_not_table_text(id))
            } else {
                match edits_applied(base, section_changes(f, id, row, include_key)) {
                    Some(t) => Ok(t),
                    None => Err(edit_failed_text()),
                }
            }
        },
    }
}

/// The text with provider `provider_id`'s section written from `row` (its API key only
/// where `include_api_key`), everything else in the file kept.
pub fn upsert_provider_section(
    content: &str,
    provider_id: &str,
    row: &ProviderConfigRow,
    include_api_key: bool,
) -> (r: Result<String, AppError>)
    ensures
        outcome_matches(r, section_written(content@, provider_id@, *row, include_api_key)),
{
    let base = base_of(content);
    if let Some(m) = parse_error(base.as_str()) {
        return Err(parse_failure(m.as_str()));
    }
    let f = provider_section_facts(base.as_str(), provider_id);
    let edits = match provider_section_edits(&f, provider_id, row, include_api_key) {
        Ok(v) => v,
        Err(e) => return Err(e),
    };
    match apply_config_edits(base.as_str(), &edits) {
        Some(t) => Ok(t),
        None => Err(AppError::Message(edit_failure_message())),
    }
}

/// Making `id` the provider in use: the text as it is where `model_provider` already
/// holds it, else with `model_provider` set.
pub open spec fn top_provider_written(content: Seq<char>, id: Seq<char>) -> Result<Seq<char>, Seq<char>> {
    let base = base_text(content);
    match toml_parse_error(base) {
        Some(m) => Err(parse_failed_text(m)),
        None => if toml_top_scalar(base, "model_provider"@) == ScalarSeen::Text(id) {
            Ok(content)
        } else {
            match toml_top_text_set(base, "model_provider"@, id) {
                Some(t) => Ok(t),
                None => Err(edit_failed_text()),
            }
        },
    }
}

/// The text with `provider_id` as the provider in use; unchanged where it already is.
pub fn set_top_level_provider(content: &str, provider_id: &str) -> (r: Result<String, AppError>)
    ensures
        outcome_matches(r, top_provider_written(content@, provider_id@)),
{
    let base = base_of(content);
    if let Some(m) = parse_error(base.as_str()) {
        return Err(parse_failure(m.as_str()));
    }
    let current = top_scalar(base.as_str(), "model_provider");
    match top_level_provider_edit(&current, provider_id) {
        None => Ok(content.to_string()),
        Some(edit) => {
            let edits = vec![edit];
            proof {
                assert(models(edits@) =~= seq![model_of(edit)]);
                lemma_single_edit(base@, model_of(edit));
            }
            match apply_config_edits(base.as_str(), &edits) {
                Some(t) => Ok(t),
                None => Err(AppError::Message(edit_failure_message())),
            }
        },
    }
}

/// Filling in a relay's default settings: the text as it is where both are present, else
/// with the missing ones set.
pub open spec fn relay_defaults_written(content: Seq<char>) -> Result<Seq<char>, Seq<char>> {
    let base = base_text(content);
    match toml_parse_error(base) {
        Some(m) => Err(parse_failed_text(m)),
        None => {
            let changes = relay_default_changes(
                toml_top_kind(base, "disable_response_storage"@),
                toml_top_kind(base, "service_tier"@),
            );
            if changes.len() == 0 {
                Ok(content)
            } else {
                match edits_applied(base, changes) {
                    Some(t) => Ok(t),
                    None => Err(edit_failed_text()),
                }
            }
        },
    }
}

/// The text with a relay's default settings filled in where absent.
pub fn fill_relay_defaults(content: &str) -> (r: Result<String, AppError>)
    ensures
        outcome_matches(r, relay_defaults_written(content@)),
{
    let base = base_of(content);
    if let Some(m) = parse_error(base.as_str()) {
        return Err(parse_failure(m.as_str()));
    }
    let edits = relay_default_edits(
        top_kind(base.as_str(), "disable_response_storage"),
        top_kind(base.as_str(), "service_tier"),
    );
    if edits.len() == 0 {
        return Ok(content.to_string());
    }
    match apply_config_edits(base.as_str(), &edits) {
        Some(t) => Ok(t),
        None => Err(AppError::Message(edit_failure_message())),
    }
}

/// Registering the image generation server run by `command`: a format error, an
/// `mcp_servers` or `generate_image` that is no table of its own, or the text with the
/// server's settings written.
pub open spec fn image_server_written(content: Seq<char>, command: Seq<char>) -> Result<
    Seq<char>,
    Seq<char>,
> {
    match toml_parse_error(content) {
        Some(m) => Err(format_failed_text(m)),
        None => {
            let servers = toml_top_kind(content, "mcp_servers"@);
            let image = toml_sub_kind(content, "mcp_servers"@, "generate_image"@);
            if servers == EntryKind::InlineTable || servers == EntryKind::Other {
                Err(not_table_text("mcp_servers"@))
            } else if servers == EntryKind::Table && (image == EntryKind::InlineTable || image
                == EntryKind::Other) {
                Err(not_table_text("generate_image"@))
            } else {
                let current = toml_sub_scalar(content, "mcp_servers"@, "generate_image"@, "command"@);
                match edits_applied(content, image_server_changes(servers, image, current, command)) {
                    Some(t) => Ok(t),
                    None => Err(edit_failed_text()),
                }
            }
        },
    }
}

/// The text with the image generation server registered to run `command`.
pub fn register_image_server(content: &str, command: &str) -> (r: Result<String, String>)
    ensures
        match image_server_written(content@, command@) {
            Ok(t) => r matches Ok(s) && s@ == t,
            Err(m) => r matches Err(e) && e@ == m,
        },
{
    if let Some(m) = parse_error(content) {
        return Err(to_text(&concat(&lit("Codex 配置格式错误："), &chars_of(m.as_str()))));
    }
    let facts = ImageServerFacts {
        servers: top_kind(content, "mcp_servers"),
        image: sub_kind(content, "mcp_servers", "generate_image"),
        command: sub_scalar(content, "mcp_servers", "generate_image", "command"),
    };
    let edits = match image_server_edits(&facts, command) {
        Ok(v) => v,
        Err(e) => return Err(e),
    };
    match apply_config_edits(content, &edits) {
        Some(t) => Ok(t),
        None => Err(edit_failure_message()),
    }
}

/// What the document holds where the image generation server is removed.
pub open spec fn removal_facts_seen(text: Seq<char>) -> ImageRemovalFacts {
    let keys = match toml_sub_keys(text, "mcp_servers"@) {
        Some(k) => k,
        None => seq![],
    };
    ImageRemovalFacts {
        servers: toml_top_kind(text, "mcp_servers"@),
        has_image: keys.contains("generate_image"@),
        has_others: holds_other_than(keys, "generate_image"@),
    }
}

/// Whether the keys hold one other than `key`.
pub open spec fn holds_other_than(keys: Seq<Seq<char>>, key: Seq<char>) -> bool {
    exists|i: int| 0 <= i < keys.len() && keys[i] != key
}

fn removal_facts(text: &str) -> (r: ImageRemovalFacts)
    ensures
        r == removal_facts_seen(text@),
{
    let servers = top_kind(text, "mcp_servers");
    let keys = match sub_keys(text, "mcp_servers") {
        Some(v) => v,
        None => Vec::new(),
    };
    let ghost seen = keys@.map_values(|k: String| k@);
    proof {
        assert(seen =~= match toml_sub_keys(text@, "mcp_servers"@) {
            Some(k) => k,
            None => Seq::<Seq<char>>::empty(),
        });
    }
    let mut has_image = false;
    let mut has_others = false;
    let mut i: usize = 0;
    while i < keys.len()
        invariant
            i <= keys@.len(),
            seen == keys@.map_values(|k: String| k@),
            has_image == (exists|j: int| 0 <= j < i && seen[j] == "generate_image"@),
            has_others == (exists|j: int| 0 <= j < i && seen[j] != "generate_image"@),
        decreases keys@.len() - i,
    {
        assert(seen[i as int] == keys@[i as int]@);
        if str_eq(keys[i].as_str(), "generate_image") {
            has_image = true;
        } else {
            has_others = true;
        }
        i = i + 1;
    }
    assert(i == seen.len());
    proof {
        if has_image {
            let j = choose|j: int| 0 <= j < i && seen[j] == "generate_image"@;
            assert(seen.contains("generate_image"@)) by {
                assert(seen[j] == "generate_image"@);
            }
        }
        if seen.contains("generate_image"@) {
            let j = choose|j: int| 0 <= j < seen.len() && seen[j] == "generate_image"@;
            assert(0 <= j < i && seen[j] == "generate_image"@);
        }
    }
    let ghost k = match toml_sub_keys(text@, "mcp_servers"@) {
        Some(k) => k,
        None => Seq::<Seq<char>>::empty(),
    };
    assert(k == seen);
    assert(has_others == holds_other_than(k, "generate_image"@)) by {
        if has_others {
            let j = choose|j: int| 0 <= j < i && seen[j] != "generate_image"@;
            assert(0 <= j < k.len() && k[j] != "generate_image"@);
        }
        if holds_other_than(k, "generate_image"@) {
            let j = choose|j: int| 0 <= j < k.len() && k[j] != "generate_image"@;
            assert(0 <= j < i && seen[j] != "generate_image"@);
        }
    }
    assert(has_image == k.contains("generate_image"@));
    let r = ImageRemovalFacts { servers, has_image, has_others };
    r
}

/// The pieces of a removed item's decoration, where present: before it, then after it.
pub open spec fn decor_pieces(prefix: Option<Seq<char>>, suffix: Option<Seq<char>>) -> Seq<Seq<char>> {
    (match prefix {
        Some(p) => seq![p],
        None => seq![],
    }) + (match suffix {
        Some(s) => seq![s],
        None => seq![],
    })
}

fn push_pieces(pieces: &mut Vec<String>, prefix: Option<String>, suffix: Option<String>)
    ensures
        texts_of(final(pieces)@) == texts_of(old(pieces)@) + decor_pieces(text_view(prefix), text_view(suffix)),
{
    let ghost start = texts_of(pieces@);
    if let Some(p) = prefix {
        pieces.push(p);
    }
    let ghost middle = texts_of(pieces@);
    assert(middle =~= start + match text_view(prefix) {
        Some(p) => seq![p],
        None => Seq::<Seq<char>>::empty(),
    });
    if let Some(x) = suffix {
        pieces.push(x);
    }
    assert(texts_of(pieces@) =~= middle + match text_view(suffix) {
        Some(x) => seq![x],
        None => Seq::<Seq<char>>::empty(),
    });
    assert(texts_of(pieces@) =~= start + decor_pieces(text_view(prefix), text_view(suffix)));
}

/// What the two removals make of the text, with the pieces of decoration they took away.
pub open spec fn removals_made(text: Seq<char>, d: ImageRemoval) -> Option<(Seq<char>, Seq<Seq<char>>)> {
    let first = if d.remove_image {
        match toml_sub_removed(text, "mcp_servers"@, "generate_image"@) {
            Some((t, p, s)) => Some((t, decor_pieces(p, s))),
            None => None,
        }
    } else {
        Some((text, seq![]))
    };
    match first {
        None => None,
        Some((t1, q1)) => if d.remove_servers {
            match toml_top_removed(t1, "mcp_servers"@) {
                Some((t, p, s)) => Some((t, q1 + decor_pieces(p, s))),
                None => None,
            }
        } else {
            Some((t1, q1))
        },
    }
}

/// The text with the comments kept from the pieces put after the last item: a line break,
/// the comments, then what followed the last item before; the text as it is where no
/// comment is kept.
pub open spec fn comments_placed(text: Seq<char>, pieces: Seq<Seq<char>>) -> Option<Seq<char>> {
    let comments = kept_comments(pieces);
    if comments.len() == 0 {
        Some(text)
    } else {
        match toml_trailing(text) {
            Some(tr) => toml_trailing_set(text, seq!['\n'] + comments + tr),
            None => None,
        }
    }
}

/// Taking the image generation server out of the text: a parse error, an `mcp_servers`
/// that is no table, or the text without its entry (and without `mcp_servers` where
/// nothing else is left in it), the comments that stood with them kept at the end.
pub open spec fn image_text_removed(text: Seq<char>) -> Result<Seq<char>, Seq<char>> {
    match toml_parse_error(text) {
        Some(m) => Err(m),
        None => {
            let f = removal_facts_seen(text);
            if f.servers == EntryKind::Other {
                Err(servers_not_table_text())
            } else {
                let d = if f.servers == EntryKind::Absent {
                    ImageRemoval { remove_image: false, remove_servers: false }
                } else {
                    ImageRemoval { remove_image: f.has_image, remove_servers: !f.has_others }
                };
                match removals_made(text, d) {
                    Some((t, q)) => match comments_placed(t, q) {
                        Some(u) => Ok(u),
                        None => Err(edit_failed_text()),
                    },
                    None => Err(edit_failed_text()),
                }
            }
        },
    }
}

/// The bytes of a `config.toml` with the image generation server taken out: the message
/// of the UTF-8 error for bytes that are no text, else as `image_text_removed` says.
pub open spec fn image_configuration_removed(config: Seq<u8>) -> Result<Seq<u8>, Seq<char>> {
    if !valid_utf8(config) {
        Err(utf8_error_text(config))
    } else {
        match image_text_removed(decode_utf8(config)) {
            Ok(t) => Ok(encode_utf8(t)),
            Err(m) => Err(m),
        }
    }
}

/// The bytes with the image generation server removed, keeping the comments that stood
/// with what was removed.
pub fn remove_image_configuration(config: &[u8]) -> (r: Result<Vec<u8>, String>)
    ensures
        match image_configuration_removed(config@) {
            Ok(b) => r matches Ok(v) && v@ == b,
            Err(m) => r matches Err(e) && e@ == m,
        },
{
    let text = match utf8_text(config) {
        Ok(t) => t,
        Err(m) => return Err(m),
    };
    if let Some(m) = parse_error(text.as_str()) {
        return Err(m);
    }
    let facts = removal_facts(text.as_str());
    let d = match image_removal(&facts) {
        Ok(d) => d,
        Err(e) => return Err(e),
    };
    let ghost t0 = text@;
    let mut current = text;
    let mut pieces: Vec<String> = Vec::new();
    assert(texts_of(pieces@) =~= Seq::<Seq<char>>::empty());
    if d.remove_image {
        match sub_removed(current.as_str(), "mcp_servers", "generate_image") {
            Some((t, p, s)) => {
                current = t;
                push_pieces(&mut pieces, p, s);
            },
            None => return Err(edit_failure_message()),
        }
    }
    assert(Seq::<Seq<char>>::empty() + decor_pieces(text_view(None::<String>), text_view(None::<String>))
        =~= decor_pieces(None, None));
    let ghost first = if d.remove_image {
        match toml_sub_removed(t0, "mcp_servers"@, "generate_image"@) {
            Some((t, p, s)) => Some((t, decor_pieces(p, s))),
            None => None,
        }
    } else {
        Some((t0, Seq::<Seq<char>>::empty()))
    };
    assert(first == Some((current@, texts_of(pieces@))));
    let ghost t1 = current@;
    let ghost q1 = texts_of(pieces@);
    if d.remove_servers {
        match top_removed(current.as_str(), "mcp_servers") {
            Some((t, p, s)) => {
                current = t;
                push_pieces(&mut pieces, p, s);
            },
            None => return Err(edit_failure_message()),
        }
    }
    assert(removals_made(t0, d) == Some((current@, texts_of(pieces@))));
    let comments = kept_comment_text(&pieces);
    if chars_of(comments.as_str()).len() > 0 {
        let tr = match trailing(current.as_str()) {
            Some(tr) => tr,
            None => return Err(edit_failure_message()),
        };
        let placed = match trailing_with_comments(comments.as_str(), tr.as_str()) {
            Some(x) => x,
            None => return Err(edit_failure_message()),
        };
        current = match trailing_set(current.as_str(), placed.as_str()) {
            Some(x) => x,
            None => return Err(edit_failure_message()),
        };
    }
    Ok(utf8_bytes(&chars_of(current.as_str())))
}

// ---------------------------------------------------------------------------
// The image tool
// ---------------------------------------------------------------------------

/// The command the image generation server is registered with (`mcp_servers`'s
/// `generate_image` entry, as tables of their own or inline), where it is a string.
pub open spec fn registered_command_of(content: Seq<char>) -> Result<Option<Seq<char>>, Seq<char>> {
    match toml_parse_error(content) {
        Some(m) => Err(format_failed_text(m)),
        None => match toml_like_scalar(content, "mcp_servers"@, "generate_image"@, "command"@) {
            ScalarSeen::Text(c) => Ok(Some(c)),
            _ => Ok(None),
        },
    }
}

/// The command the image generation server is registered with in `content`.
pub fn registered_image_command(content: &str) -> (r: Result<Option<String>, String>)
    ensures
        match registered_command_of(content@) {
            Ok(c) => r matches Ok(x) && text_view(x) == c,
            Err(m) => r matches Err(e) && e@ == m,
        },
{
    if let Some(m) = parse_error(content) {
        return Err(to_text(&concat(&lit("Codex 配置格式错误："), &chars_of(m.as_str()))));
    }
    match like_scalar(content, "mcp_servers", "generate_image", "command") {
        ScalarFact::Text(c) => Ok(Some(c)),
        _ => Ok(None),
    }
}

/// The image tool is offered only to a home whose provider in use (`model_provider`, else
/// `openai`) is not the official one and whose provider's `base_url` names the 711EV relay
/// (`ai.711ev.com`, in any ASCII case). The error of bytes that are no text or no TOML
/// document is its message.
pub open spec fn eligible_config(config: Seq<u8>) -> Result<bool, Seq<char>> {
    if !valid_utf8(config) {
        Err(utf8_error_text(config))
    } else {
        let text = decode_utf8(config);
        match toml_parse_error(text) {
            Some(m) => Err(m),
            None => {
                let p = match toml_top_scalar(text, "model_provider"@) {
                    ScalarSeen::Text(t) => t,
                    _ => "openai"@,
                };
                if lower(p) == lower("openai"@) {
                    Ok(false)
                } else {
                    Ok(
                        match toml_like_scalar(text, "model_providers"@, p, "base_url"@) {
                            ScalarSeen::Text(u) => contains(lower(u), "ai.711ev.com"@),
                            _ => false,
                        },
                    )
                }
            },
        }
    }
}

/// Whether the image tool is offered to a home with this `config.toml`.
pub fn provider_is_eligible(config: &[u8]) -> (r: Result<bool, String>)
    ensures
        match eligible_config(config@) {
            Ok(b) => r == Ok::<bool, String>(b),
            Err(m) => r matches Err(e) && e@ == m,
        },
{
    let text = match utf8_text(config) {
        Ok(t) => t,
        Err(m) => return Err(m),
    };
    if let Some(m) = parse_error(text.as_str()) {
        return Err(m);
    }
    let provider = match top_scalar(text.as_str(), "model_provider") {
        ScalarFact::Text(t) => t,
        _ => "openai".to_string(),
    };
    if eq_ignore_case(&chars_of(provider.as_str()), &lit("openai")) {
        return Ok(false);
    }
    match like_scalar(text.as_str(), "model_providers", provider.as_str(), "base_url") {
        ScalarFact::Text(u) => Ok(contains_seq(&lower_vec(&chars_of(u.as_str())), &lit("ai.711ev.com"))),
        _ => Ok(false),
    }
}

} // verus!
