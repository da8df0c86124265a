//! Changes to `config.toml`, decided from what the file holds where they apply.
//!
//! The file is edited in place by a TOML editor that keeps its comments and layout. These
//! functions decide which changes it makes, and refuse a file whose shape does not allow
//! them; a value already equal to the one wanted is left as it is.
use vstd::prelude::*;

use crate::error::AppError;
use crate::store::ProviderConfigRow;
use crate::text::{
    all_ws, chars_of, concat, is_blank, lit, lower, push_char, str_eq, string_of,
    to_text,
};

verus! {

broadcast use vstd::string::group_string_axioms;

/// What a key of a table holds, as far as editing under it is concerned.
#[derive(Debug, Clone, Copy, PartialEq, Eq, Structural)]
pub enum EntryKind {
    Absent,
    /// A table of its own (`[a.b]`).
    Table,
    /// A table written inline (`a = { .. }`).
    InlineTable,
    /// Any other value.
    Other,
}

/// The value a key holds, where it is a string or a boolean; `Missing` for no value or
/// one of another kind.
#[derive(Debug, Clone, PartialEq, Eq)]
pub enum ScalarFact {
    Text(String),
    Flag(bool),
    Missing,
}

/// A `ScalarFact` as values.
pub enum ScalarSeen {
    Text(Seq<char>),
    Flag(bool),
    Missing,
}

impl View for ScalarFact {
    type V = ScalarSeen;

    open spec fn view(&self) -> ScalarSeen {
        match self {
            ScalarFact::Text(s) => ScalarSeen::Text(s@),
            ScalarFact::Flag(b) => ScalarSeen::Flag(*b),
            ScalarFact::Missing => ScalarSeen::Missing,
        }
    }
}

/// One change to the document. `path` names the table, from the top, by its keys.
/// `AddTable` adds an empty table of its own (shown with its header); a value set under a
/// path creates the tables of the path that are absent as implicit ones (shown only once
/// they hold something). The text and flag changes keep the comments and spacing of the
/// value they replace.
#[derive(Debug, Clone, PartialEq, Eq)]
pub enum ConfigEdit {
    AddTable { path: Vec<String>, key: String },
    SetText { path: Vec<String>, key: String, value: String },
    SetFlag { path: Vec<String>, key: String, value: bool },
    SetNumber { path: Vec<String>, key: String, value: i64 },
    SetEmptyList { path: Vec<String>, key: String },
}

/// A change, as values.
pub enum EditModel {
    AddTable(Seq<Seq<char>>, Seq<char>),
    SetText(Seq<Seq<char>>, Seq<char>, Seq<char>),
    SetFlag(Seq<Seq<char>>, Seq<char>, bool),
    SetNumber(Seq<Seq<char>>, Seq<char>, int),
    SetEmptyList(Seq<Seq<char>>, Seq<char>),
}

pub open spec fn path_model(p: Seq<String>) -> Seq<Seq<char>> {
    p.map_values(|s: String| s@)
}

pub open spec fn model_of(e: ConfigEdit) -> EditModel {
    match e {
        ConfigEdit::AddTable { path, key } => EditModel::AddTable(path_model(path@), key@),
        ConfigEdit::SetText { path, key, value } => EditModel::SetText(
            path_model(path@),
            key@,
            value@,
        ),
        ConfigEdit::SetFlag { path, key, value } => EditModel::SetFlag(
            path_model(path@),
            key@,
            value,
        ),
        ConfigEdit::SetNumber { path, key, value } => EditModel::SetNumber(
            path_model(path@),
            key@,
            value as int,
        ),
        ConfigEdit::SetEmptyList { path, key } => EditModel::SetEmptyList(path_model(path@), key@),
    }
}

pub open spec fn models(v: Seq<ConfigEdit>) -> Seq<EditModel> {
    v.map_values(|e: ConfigEdit| model_of(e))
}

/// Setting a text: nothing where the key already holds it.
pub open spec fn text_change(path: Seq<Seq<char>>, key: Seq<char>, current: ScalarSeen, value: Seq<
    char,
>) -> Seq<EditModel> {
    if current == ScalarSeen::Text(value) {
        seq![]
    } else {
        seq![EditModel::SetText(path, key, value)]
    }
}

/// Setting a flag: nothing where the key already holds it.
pub open spec fn flag_change(path: Seq<Seq<char>>, key: Seq<char>, current: ScalarSeen, value: bool) -> Seq<
    EditModel,
> {
    if current == ScalarSeen::Flag(value) {
        seq![]
    } else {
        seq![EditModel::SetFlag(path, key, value)]
    }
}

/// What a key under a table just added holds: nothing.
pub open spec fn current_of(fresh: bool, c: ScalarSeen) -> ScalarSeen {
    if fresh {
        ScalarSeen::Missing
    } else {
        c
    }
}

fn current_fact(fresh: bool, c: &ScalarFact) -> (r: ScalarFact)
    ensures
        r@ == current_of(fresh, c@),
{
    if fresh {
        ScalarFact::Missing
    } else {
        match c {
            ScalarFact::Text(s) => ScalarFact::Text(s.clone()),
            ScalarFact::Flag(b) => ScalarFact::Flag(*b),
            ScalarFact::Missing => ScalarFact::Missing,
        }
    }
}

fn keys(a: &str) -> (r: Vec<String>)
    ensures
        path_model(r@) == seq![a@],
{
    let r = vec![a.to_string()];
    assert(path_model(r@) =~= seq![a@]);
    r
}

fn keys2(a: &str, b: &str) -> (r: Vec<String>)
    ensures
        path_model(r@) == seq![a@, b@],
{
    let r = vec![a.to_string(), b.to_string()];
    assert(path_model(r@) =~= seq![a@, b@]);
    r
}

fn copy_path(p: &Vec<String>) -> (r: Vec<String>)
    ensures
        path_model(r@) == path_model(p@),
{
    let mut r: Vec<String> = Vec::new();
    let mut i: usize = 0;
    while i < p.len()
        invariant
            i <= p@.len(),
            r@.len() == i,
            forall|j: int| 0 <= j < i ==> #[trigger] r@[j]@ == p@[j]@,
        decreases p@.len() - i,
    {
        let k = p[i].clone();
        r.push(k);
        i = i + 1;
    }
    assert forall|j: int| 0 <= j < r@.len() implies path_model(r@)[j] == path_model(p@)[j] by {
        assert(r@[j]@ == p@[j]@);
    }
    assert(path_model(r@) =~= path_model(p@));
    r
}

fn push_edit(edits: &mut Vec<ConfigEdit>, e: ConfigEdit)
    ensures
        models(final(edits)@) == models(old(edits)@).push(model_of(e)),
{
    edits.push(e);
    assert(models(edits@) =~= models(old(edits)@).push(model_of(e)));
}

/// Appends the change that sets a text, where one is needed.
fn add_text_change(
    edits: &mut Vec<ConfigEdit>,
    path: &Vec<String>,
    key: &str,
    current: &ScalarFact,
    value: &str,
)
    ensures
        models(final(edits)@) == models(old(edits)@) + text_change(
            path_model(path@),
            key@,
            current@,
            value@,
        ),
{
    let same = match current {
        ScalarFact::Text(s) => str_eq(s.as_str(), value),
        _ => false,
    };
    if same {
        assert(models(edits@) =~= models(old(edits)@) + seq![]);
    } else {
        push_edit(
            edits,
            ConfigEdit::SetText { path: copy_path(path), key: key.to_string(), value: value.to_string() },
        );
        assert(models(edits@) =~= models(old(edits)@) + text_change(
            path_model(path@),
            key@,
            current@,
            value@,
        ));
    }
}

/// Appends the change that sets a flag, where one is needed.
fn add_flag_change(
    edits: &mut Vec<ConfigEdit>,
    path: &Vec<String>,
    key: &str,
    current: &ScalarFact,
    value: bool,
)
    ensures
        models(final(edits)@) == models(old(edits)@) + flag_change(
            path_model(path@),
            key@,
            current@,
            value,
        ),
{
    let same = match current {
        ScalarFact::Flag(b) => *b == value,
        _ => false,
    };
    if same {
        assert(models(edits@) =~= models(old(edits)@) + seq![]);
    } else {
        push_edit(edits, ConfigEdit::SetFlag { path: copy_path(path), key: key.to_string(), value });
        assert(models(edits@) =~= models(old(edits)@) + flag_change(
            path_model(path@),
            key@,
            current@,
            value,
        ));
    }
}

/// Whether a text is parsed as an empty document: it holds white space only.
pub fn parses_as_empty(content: &str) -> (r: bool)
    ensures
        r == all_ws(content@),
{
    is_blank(&chars_of(content))
}

// ---------------------------------------------------------------------------
// A provider's section
// ---------------------------------------------------------------------------

/// What the document holds where a provider's section is written: `model_providers`, the
/// provider's entry under it, and the entry's values.
#[derive(Debug, Clone)]
pub struct ProviderSectionFacts {
    pub providers: EntryKind,
    pub entry: EntryKind,
    pub name: ScalarFact,
    pub base_url: ScalarFact,
    pub wire_api: ScalarFact,
    pub requires_openai_auth: ScalarFact,
    pub bearer_token: ScalarFact,
}

/// `ProviderSectionFacts` as values.
pub struct SectionView {
    pub providers: EntryKind,
    pub entry: EntryKind,
    pub name: ScalarSeen,
    pub base_url: ScalarSeen,
    pub wire_api: ScalarSeen,
    pub requires_openai_auth: ScalarSeen,
    pub bearer_token: ScalarSeen,
}

impl View for ProviderSectionFacts {
    type V = SectionView;

    open spec fn view(&self) -> SectionView {
        SectionView {
            providers: self.providers,
            entry: self.entry,
            name: self.name@,
            base_url: self.base_url@,
            wire_api: self.wire_api@,
            requires_openai_auth: self.requires_openai_auth@,
            bearer_token: self.bearer_token@,
        }
    }
}

pub open spec fn providers_not_table_text() -> Seq<char> {
    "config.toml 中 model_providers 不是有效配置表"@
}

pub open spec fn entry_not_table_text(id: Seq<char>) -> Seq<char> {
    "config.toml 中 model_providers."@ + id + " 不是有效配置表"@
}

/// The changes that write a provider's section: `model_providers` and the entry are added
/// where absent; then its name, address, wire protocol and OpenAI-auth flag are set, and
/// its API key where `include_key`.
pub open spec fn section_changes(
    f: SectionView,
    id: Seq<char>,
    row: ProviderConfigRow,
    include_key: bool,
) -> Seq<EditModel> {
    let fresh_providers = f.providers == EntryKind::Absent;
    let fresh = fresh_providers || f.entry == EntryKind::Absent;
    let at = seq!["model_providers"@, id];
    (if fresh_providers {
        seq![EditModel::AddTable(seq![], "model_providers"@)]
    } else {
        seq![]
    }) + (if fresh {
        seq![EditModel::AddTable(seq!["model_providers"@], id)]
    } else {
        seq![]
    }) + text_change(at, "name"@, current_of(fresh, f.name), row.provider_id@) + text_change(
        at,
        "base_url"@,
        current_of(fresh, f.base_url),
        row.base_url@,
    ) + text_change(at, "wire_api"@, current_of(fresh, f.wire_api), "responses"@) + flag_change(
        at,
        "requires_openai_auth"@,
        current_of(fresh, f.requires_openai_auth),
        row.requires_openai_auth,
    ) + (if include_key {
        text_change(at, "experimental_bearer_token"@, current_of(fresh, f.bearer_token), row.api_key@)
    } else {
        seq![]
    })
}

/// A change made inside `model_providers` (or adding that table itself).
pub open spec fn within_providers(e: EditModel) -> bool {
    match e {
        EditModel::AddTable(p, k) => (p.len() == 0 && k == "model_providers"@) || (p.len() >= 1
            && p[0] == "model_providers"@),
        EditModel::SetText(p, _, _) => p.len() >= 1 && p[0] == "model_providers"@,
        EditModel::SetFlag(p, _, _) => p.len() >= 1 && p[0] == "model_providers"@,
        EditModel::SetNumber(p, _, _) => p.len() >= 1 && p[0] == "model_providers"@,
        EditModel::SetEmptyList(p, _) => p.len() >= 1 && p[0] == "model_providers"@,
    }
}

/// Writing a provider's section changes nothing outside `model_providers`: in particular
/// the provider in use (`model_provider`) is left as it is.
pub proof fn law_section_changes_stay_in_providers(
    f: SectionView,
    id: Seq<char>,
    row: ProviderConfigRow,
    include_key: bool,
)
    ensures
        forall|i: int|
            0 <= i < section_changes(f, id, row, include_key).len() ==> within_providers(
                #[trigger] section_changes(f, id, row, include_key)[i],
            ),
{
    let fresh_providers = f.providers == EntryKind::Absent;
    let fresh = fresh_providers || f.entry == EntryKind::Absent;
    let at = seq!["model_providers"@, id];
    let a = if fresh_providers {
        seq![EditModel::AddTable(seq![], "model_providers"@)]
    } else {
        seq![]
    };
    let b = if fresh {
        seq![EditModel::AddTable(seq!["model_providers"@], id)]
    } else {
        seq![]
    };
    let c = text_change(at, "name"@, current_of(fresh, f.name), row.provider_id@);
    let d = text_change(at, "base_url"@, current_of(fresh, f.base_url), row.base_url@);
    let e = text_change(at, "wire_api"@, current_of(fresh, f.wire_api), "responses"@);
    let g = flag_change(at, "requires_openai_auth"@, current_of(fresh, f.requires_openai_auth), row.requires_openai_auth);
    let h = if include_key {
        text_change(at, "experimental_bearer_token"@, current_of(fresh, f.bearer_token), row.api_key@)
    } else {
        seq![]
    };
    let all = section_changes(f, id, row, include_key);
    assert(all == a + b + c + d + e + g + h);
    assert forall|i: int| 0 <= i < all.len() implies within_providers(#[trigger] all[i]) by {
        if i < a.len() {
            assert(all[i] == a[i]);
        } else if i < a.len() + b.len() {
            assert(all[i] == b[i - a.len()]);
        } else if i < a.len() + b.len() + c.len() {
            assert(all[i] == c[i - a.len() - b.len()]);
        } else if i < a.len() + b.len() + c.len() + d.len() {
            assert(all[i] == d[i - a.len() - b.len() - c.len()]);
        } else if i < a.len() + b.len() + c.len() + d.len() + e.len() {
            assert(all[i] == e[i - a.len() - b.len() - c.len() - d.len()]);
        } else if i < a.len() + b.len() + c.len() + d.len() + e.len() + g.len() {
            assert(all[i] == g[i - a.len() - b.len() - c.len() - d.len() - e.len()]);
        } else {
            assert(all[i] == h[i - a.len() - b.len() - c.len() - d.len() - e.len() - g.len()]);
        }
    }
}

/// The changes that write `row` as the section of provider `provider_id`. The document
/// must hold `model_providers`, and the provider's entry in it, as tables of their own
/// where it holds them.
pub fn provider_section_edits(
    f: &ProviderSectionFacts,
    provider_id: &str,
    row: &ProviderConfigRow,
    include_key: bool,
) -> (r: Result<Vec<ConfigEdit>, AppError>)
    ensures
        f.providers == EntryKind::InlineTable || f.providers == EntryKind::Other ==> (r matches Err(
            e,
        ) && e is Message && e.text() == providers_not_table_text()),
        f.providers == EntryKind::Table && (f.entry == EntryKind::InlineTable || f.entry
            == EntryKind::Other) ==> (r matches Err(e) && e is Message && e.text()
            == entry_not_table_text(provider_id@)),
        (f.providers == EntryKind::Absent || (f.providers == EntryKind::Table && (f.entry
            == EntryKind::Absent || f.entry == EntryKind::Table))) ==> (r matches Ok(v) && models(v@)
            == section_changes(f@, provider_id@, *row, include_key)),
{
    if f.providers == EntryKind::InlineTable || f.providers == EntryKind::Other {
        return Err(AppError::Message("config.toml 中 model_providers 不是有效配置表".to_string()));
    }
    let fresh_providers = f.providers == EntryKind::Absent;
    if !fresh_providers && (f.entry == EntryKind::InlineTable || f.entry == EntryKind::Other) {
        let text = concat(
            &concat(&lit("config.toml 中 model_providers."), &chars_of(provider_id)),
            &lit(" 不是有效配置表"),
        );
        return Err(AppError::Message(to_text(&text)));
    }
    let fresh = fresh_providers || f.entry == EntryKind::Absent;
    let mut edits: Vec<ConfigEdit> = Vec::new();
    if fresh_providers {
        push_edit(
            &mut edits,
            ConfigEdit::AddTable {
                path: Vec::new(),
                key: "model_providers".to_string(),
            },
        );
        assert(path_model(Seq::<String>::empty()) =~= Seq::<Seq<char>>::empty());
    }
    let ghost first = models(edits@);
    if fresh {
        push_edit(
            &mut edits,
            ConfigEdit::AddTable {
                path: keys("model_providers"),
                key: provider_id.to_string(),
            },
        );
    }
    let ghost second = models(edits@);
    let at = keys2("model_providers", provider_id);
    add_text_change(&mut edits, &at, "name", &current_fact(fresh, &f.name), row.provider_id.as_str());
    add_text_change(&mut edits, &at, "base_url", &current_fact(fresh, &f.base_url), row.base_url.as_str());
    add_text_change(&mut edits, &at, "wire_api", &current_fact(fresh, &f.wire_api), "responses");
    add_flag_change(
        &mut edits,
        &at,
        "requires_openai_auth",
        &current_fact(fresh, &f.requires_openai_auth),
        row.requires_openai_auth,
    );
    if include_key {
        add_text_change(
            &mut edits,
            &at,
            "experimental_bearer_token",
            &current_fact(fresh, &f.bearer_token),
            row.api_key.as_str(),
        );
    } else {
        assert(models(edits@) =~= models(edits@) + seq![]);
    }
    assert(models(edits@) =~= section_changes(f@, provider_id@, *row, include_key));
    Ok(edits)
}

/// The change that makes `provider_id` the provider in use: none where `model_provider`
/// already holds it, in which case the text is kept as it is.
pub fn top_level_provider_edit(current: &ScalarFact, provider_id: &str) -> (r: Option<ConfigEdit>)
    ensures
        (current matches ScalarFact::Text(s) && s@ == provider_id@) ==> r is None,
        !(current matches ScalarFact::Text(s) && s@ == provider_id@) ==> (r matches Some(e)
            && model_of(e) == EditModel::SetText(seq![], "model_provider"@, provider_id@)),
{
    let same = match current {
        ScalarFact::Text(s) => str_eq(s.as_str(), provider_id),
        _ => false,
    };
    if same {
        None
    } else {
        let path: Vec<String> = Vec::new();
        assert(path_model(path@) =~= Seq::<Seq<char>>::empty());
        Some(ConfigEdit::SetText { path, key: "model_provider".to_string(), value: provider_id.to_string() })
    }
}

/// The top-level settings a switch to a relay fills in where the file has none:
/// `disable_response_storage = true` and `service_tier = "flex"`. A key already present
/// keeps its value, whatever it is.
pub open spec fn relay_default_changes(storage: EntryKind, tier: EntryKind) -> Seq<EditModel> {
    (if storage == EntryKind::Absent {
        seq![EditModel::SetFlag(seq![], "disable_response_storage"@, true)]
    } else {
        seq![]
    }) + (if tier == EntryKind::Absent {
        seq![EditModel::SetText(seq![], "service_tier"@, "flex"@)]
    } else {
        seq![]
    })
}

/// The changes that fill in a relay's default settings, given what the top-level
/// `disable_response_storage` and `service_tier` keys hold.
pub fn relay_default_edits(storage: EntryKind, tier: EntryKind) -> (r: Vec<ConfigEdit>)
    ensures
        models(r@) == relay_default_changes(storage, tier),
{
    let mut edits: Vec<ConfigEdit> = Vec::new();
    let ghost e0 = models(edits@);
    assert(e0 =~= seq![]);
    if storage == EntryKind::Absent {
        let path: Vec<String> = Vec::new();
        assert(path_model(path@) =~= Seq::<Seq<char>>::empty());
        push_edit(&mut edits, ConfigEdit::SetFlag { path, key: "disable_response_storage".to_string(), value: true });
    }
    if tier == EntryKind::Absent {
        let path: Vec<String> = Vec::new();
        assert(path_model(path@) =~= Seq::<Seq<char>>::empty());
        push_edit(&mut edits, ConfigEdit::SetText { path, key: "service_tier".to_string(), value: "flex".to_string() });
    }
    assert(models(edits@) =~= relay_default_changes(storage, tier));
    edits
}

/// Whether saving a provider writes its section to `config.toml`: not for the provider in
/// use (`current`, the top-level `model_provider`, in any ASCII case), whose saved
/// settings reach the file only when it is switched to.
pub fn save_writes_config(current: &Option<String>, provider_id: &str) -> (r: bool)
    ensures
        r == !(lower(match current {
            Some(c) => c@,
            None => Seq::<char>::empty(),
        }) == lower(provider_id@)),
{
    let c: Vec<char> = match current {
        Some(c) => chars_of(c.as_str()),
        None => Vec::new(),
    };
    !crate::text::eq_ignore_case(&c, &chars_of(provider_id))
}

// ---------------------------------------------------------------------------
// The image generation server
// ---------------------------------------------------------------------------

/// What the document holds where the image generation server is registered.
#[derive(Debug, Clone)]
pub struct ImageServerFacts {
    pub servers: EntryKind,
    pub image: EntryKind,
    pub command: ScalarFact,
}

pub open spec fn not_table_text(key: Seq<char>) -> Seq<char> {
    "config.toml 中 "@ + key + " 不是有效配置表"@
}

fn not_table_error(key: &str) -> (r: String)
    ensures
        r@ == not_table_text(key@),
{
    to_text(&concat(&concat(&lit("config.toml 中 "), &chars_of(key)), &lit(" 不是有效配置表")))
}

/// The changes that register the image generation server run by `command`: the command
/// set, and the arguments and time limits written, in `mcp_servers.generate_image`
/// (whose tables are added, implicitly, by the first of them where absent). `servers`
/// and `image` say what `mcp_servers` and its entry are, `current` the command it holds.
pub open spec fn image_server_changes(
    servers: EntryKind,
    image: EntryKind,
    current: ScalarSeen,
    command: Seq<char>,
) -> Seq<EditModel> {
    let fresh = servers == EntryKind::Absent || image == EntryKind::Absent;
    let at = seq!["mcp_servers"@, "generate_image"@];
    text_change(at, "command"@, current_of(fresh, current), command) + seq![
        EditModel::SetEmptyList(at, "args"@),
        EditModel::SetNumber(at, "startup_timeout_sec"@, 30),
        EditModel::SetNumber(at, "tool_timeout_sec"@, 120),
    ]
}

/// The changes that register the image generation server. `mcp_servers` and its
/// `generate_image` entry must be tables of their own where present.
pub fn image_server_edits(f: &ImageServerFacts, command: &str) -> (r: Result<Vec<ConfigEdit>, String>)
    ensures
        f.servers == EntryKind::Table && (f.image == EntryKind::InlineTable || f.image
            == EntryKind::Other) ==> (r matches Err(e) && e@ == not_table_text("generate_image"@)),
        (f.servers == EntryKind::Absent || (f.servers == EntryKind::Table && (f.image
            == EntryKind::Absent || f.image == EntryKind::Table))) ==> (r matches Ok(v) && models(v@)
            == image_server_changes(f.servers, f.image, f.command@, command@)),
        (f.servers == EntryKind::InlineTable || f.servers == EntryKind::Other) ==> (r matches Err(e)
            && e@ == not_table_text("mcp_servers"@)),
{
    if f.servers == EntryKind::InlineTable || f.servers == EntryKind::Other {
        return Err(not_table_error("mcp_servers"));
    }
    let fresh_servers = f.servers == EntryKind::Absent;
    if !fresh_servers && (f.image == EntryKind::InlineTable || f.image == EntryKind::Other) {
        return Err(not_table_error("generate_image"));
    }
    let fresh = fresh_servers || f.image == EntryKind::Absent;
    let mut edits: Vec<ConfigEdit> = Vec::new();
    assert(models(edits@) =~= seq![]);
    let at = keys2("mcp_servers", "generate_image");
    add_text_change(&mut edits, &at, "command", &current_fact(fresh, &f.command), command);
    push_edit(&mut edits, ConfigEdit::SetEmptyList { path: copy_path(&at), key: "args".to_string() });
    push_edit(
        &mut edits,
        ConfigEdit::SetNumber { path: copy_path(&at), key: "startup_timeout_sec".to_string(), value: 30 },
    );
    push_edit(
        &mut edits,
        ConfigEdit::SetNumber { path: at, key: "tool_timeout_sec".to_string(), value: 120 },
    );
    assert(models(edits@) =~= image_server_changes(f.servers, f.image, f.command@, command@));
    Ok(edits)
}

// ---------------------------------------------------------------------------
// Removing the image generation server
// ---------------------------------------------------------------------------

/// What the document holds where the image generation server is removed: `mcp_servers`,
/// and whether it holds `generate_image` and anything besides.
#[derive(Debug, Clone, Copy)]
pub struct ImageRemovalFacts {
    pub servers: EntryKind,
    pub has_image: bool,
    pub has_others: bool,
}

/// What removing the image generation server takes away: its entry, and `mcp_servers`
/// where nothing else is left in it.
#[derive(Debug, Clone, Copy, PartialEq, Eq, Structural)]
pub struct ImageRemoval {
    pub remove_image: bool,
    pub remove_servers: bool,
}

pub open spec fn servers_not_table_text() -> Seq<char> {
    "mcp_servers 不是有效配置表"@
}

/// Removing the image generation server: nothing where `mcp_servers` is absent; refused
/// where it is not a table (of its own or inline).
pub fn image_removal(f: &ImageRemovalFacts) -> (r: Result<ImageRemoval, String>)
    ensures
        f.servers == EntryKind::Absent ==> r == Ok::<ImageRemoval, String>(
            ImageRemoval { remove_image: false, remove_servers: false },
        ),
        f.servers == EntryKind::Other ==> (r matches Err(e) && e@ == servers_not_table_text()),
        (f.servers == EntryKind::Table || f.servers == EntryKind::InlineTable) ==> r == Ok::<
            ImageRemoval,
            String,
        >(ImageRemoval { remove_image: f.has_image, remove_servers: !f.has_others }),
{
    match f.servers {
        EntryKind::Absent => Ok(ImageRemoval { remove_image: false, remove_servers: false }),
        EntryKind::Other => Err(to_text(&lit("mcp_servers 不是有效配置表"))),
        _ => Ok(ImageRemoval { remove_image: f.has_image, remove_servers: !f.has_others }),
    }
}

/// Texts as values.
pub open spec fn texts_of(v: Seq<String>) -> Seq<Seq<char>> {
    v.map_values(|s: String| s@)
}

/// The comments kept from what a removal takes away: each piece of its decoration (the
/// text before and after it) that holds `#`, in order, each ending with a line break.
pub open spec fn kept_comments(pieces: Seq<Seq<char>>) -> Seq<char>
    decreases pieces.len(),
{
    if pieces.len() == 0 {
        seq![]
    } else {
        let t = pieces.last();
        kept_comments(pieces.drop_last()) + if t.contains('#') {
            if t.len() > 0 && t.last() == '\n' {
                t
            } else {
                t.push('\n')
            }
        } else {
            seq![]
        }
    }
}

fn holds_hash(t: &Vec<char>) -> (r: bool)
    ensures
        r == t@.contains('#'),
{
    let mut i: usize = 0;
    while i < t.len()
        invariant
            i <= t@.len(),
            forall|j: int| 0 <= j < i ==> t@[j] != '#',
        decreases t@.len() - i,
    {
        if t[i] == '#' {
            return true;
        }
        i = i + 1;
    }
    false
}

/// The comments kept from the pieces: see `kept_comments`.
pub fn kept_comment_text(pieces: &Vec<String>) -> (r: String)
    ensures
        r@ == kept_comments(texts_of(pieces@)),
{
    let ghost all = texts_of(pieces@);
    let mut out = String::new();
    let mut i: usize = 0;
    while i < pieces.len()
        invariant
            i <= pieces@.len(),
            all == texts_of(pieces@),
            out@ == kept_comments(all.subrange(0, i as int)),
        decreases pieces@.len() - i,
    {
        let t = chars_of(pieces[i].as_str());
        assert(all.subrange(0, i + 1).drop_last() =~= all.subrange(0, i as int));
        assert(all.subrange(0, i + 1).last() == pieces@[i as int]@);
        if holds_hash(&t) {
            let mut k: usize = 0;
            let ghost before = out@;
            while k < t.len()
                invariant
                    k <= t@.len(),
                    out@ == before + t@.subrange(0, k as int),
                decreases t@.len() - k,
            {
                push_char(&mut out, t[k]);
                assert(out@ =~= before + t@.subrange(0, k + 1));
                k = k + 1;
            }
            assert(t@.subrange(0, t@.len() as int) =~= t@);
            if !(t.len() > 0 && t[t.len() - 1] == '\n') {
                push_char(&mut out, '\n');
            }
        }
        i = i + 1;
    }
    assert(all.subrange(0, pieces@.len() as int) =~= all);
    out
}

/// The document's new trailing text where comments were kept: a line break, the
/// comments, then what trailed before. `None` where no comment was kept.
pub fn trailing_with_comments(comments: &str, trailing: &str) -> (r: Option<String>)
    ensures
        comments@.len() == 0 ==> r is None,
        comments@.len() > 0 ==> (r matches Some(t) && t@ == seq!['\n'] + comments@ + trailing@),
{
    let c = chars_of(comments);
    if c.len() == 0 {
        None
    } else {
        let nl: Vec<char> = vec!['\n'];
        let all = concat(&concat(&nl, &c), &chars_of(trailing));
        Some(string_of(&all))
    }
}

// ---------------------------------------------------------------------------
// Writing `config.toml` and `AGENTS.md` together
// ---------------------------------------------------------------------------

/// The rollback failures joined by `；`, in order.
pub open spec fn joined_failures(failures: Seq<String>) -> Seq<char>
    decreases failures.len(),
{
    if failures.len() == 0 {
        seq![]
    } else if failures.len() == 1 {
        failures[0]@
    } else {
        joined_failures(failures.drop_last()) + "；"@ + failures.last()@
    }
}

pub open spec fn rollback_failures(agents: Option<String>, config: Option<String>) -> Seq<String> {
    (match agents {
        Some(a) => seq![a],
        None => seq![],
    }) + (match config {
        Some(c) => seq![c],
        None => seq![],
    })
}

/// The error of a failed write of the two files: the failure itself where both were put
/// back, else the rollback failures (of `AGENTS.md`, then of `config.toml`).
pub fn configuration_commit_error(error: String, agents_rollback: Option<String>, config_rollback: Option<String>) -> (r: String)
    ensures
        agents_rollback is None && config_rollback is None ==> r@ == error@,
        !(agents_rollback is None && config_rollback is None) ==> r@ == "生图配置写入失败且回滚未完成："@
            + joined_failures(rollback_failures(agents_rollback, config_rollback)),
{
    let ghost failures = rollback_failures(agents_rollback, config_rollback);
    match (agents_rollback, config_rollback) {
        (None, None) => error,
        (Some(a), None) => {
            assert(failures =~= seq![a]);
            assert(joined_failures(failures) == a@);
            to_text(&concat(&lit("生图配置写入失败且回滚未完成："), &chars_of(a.as_str())))
        },
        (None, Some(c)) => {
            assert(failures =~= seq![c]);
            assert(joined_failures(failures) == c@);
            to_text(&concat(&lit("生图配置写入失败且回滚未完成："), &chars_of(c.as_str())))
        },
        (Some(a), Some(c)) => {
            assert(failures =~= seq![a, c]);
            assert(failures.drop_last() =~= seq![a]);
            assert(joined_failures(failures.drop_last()) == a@);
            assert(joined_failures(failures) == a@ + "；"@ + c@);
            let both = concat(&concat(&chars_of(a.as_str()), &lit("；")), &chars_of(c.as_str()));
            to_text(&concat(&lit("生图配置写入失败且回滚未完成："), &both))
        },
    }
}

} // verus!
