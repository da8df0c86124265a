//! Profiles made from discovered homes, and the provider a home's configuration selects.
use vstd::prelude::*;

use crate::discovery::DiscoveredInstance;
use crate::models::{Profile, ProfileMode};
use crate::payload::{field, get_field, get_text, text_of, JsonValue};
use crate::provider::id_char;
use crate::text::{all_ws, chars_of, is_blank, opt_chars};

verus! {

broadcast use vstd::string::group_string_axioms;

/// The profile registered for a discovered home, with a fresh `id`, created and updated
/// `now`. A discovered home is external: the tool did not create it.
pub fn from_discovery(instance: DiscoveredInstance, id: String, now: String) -> (r: Profile)
    ensures
        r.id == id,
        r.name == instance.name,
        r.kind == instance.kind,
        r.mode == ProfileMode::External,
        r.codex_home == instance.home,
        r.provider_id == instance.provider_id,
        r.app_path == instance.app_path,
        r.discovery_source == instance.discovery_source,
        r.providers == instance.providers,
        r.config_profiles == instance.config_profiles,
        r.created_at == now,
        r.updated_at == now,
{
    Profile {
        id,
        name: instance.name,
        kind: instance.kind,
        mode: ProfileMode::External,
        codex_home: instance.home,
        provider_id: instance.provider_id,
        app_path: instance.app_path,
        discovery_source: instance.discovery_source,
        providers: instance.providers,
        config_profiles: instance.config_profiles,
        created_at: now.clone(),
        updated_at: now,
    }
}

/// A text value under a key, when it is not blank.
pub open spec fn nonblank_at(v: JsonValue, key: Seq<char>) -> Option<Seq<char>> {
    match text_of(field(v, key)) {
        Some(t) => if all_ws(t) {
            None
        } else {
            Some(t)
        },
        None => None,
    }
}

fn nonblank_text(v: &JsonValue, key: &str) -> (r: Option<String>)
    ensures
        opt_chars(r) == nonblank_at(*v, key@),
{
    match get_text(v, key) {
        Some(t) => {
            if is_blank(&chars_of(t.as_str())) {
                None
            } else {
                Some(t.clone())
            }
        },
        None => None,
    }
}

/// What reading a home's provider does next, once `config.toml` is read.
#[derive(Debug)]
pub enum ProviderRead {
    /// The provider is known.
    Done(String),
    /// Read `<profile>.config.toml`; its provider wins, else `otherwise`.
    ReadNamed { profile: String, otherwise: String },
}

/// The provider of the main configuration alone: its `model_provider` when not blank, else
/// the fallback.
pub open spec fn root_provider(config: JsonValue, fallback: Seq<char>) -> Seq<char> {
    match nonblank_at(config, "model_provider"@) {
        Some(p) => p,
        None => fallback,
    }
}

/// The provider of the selected profile's inline table, when not blank.
pub open spec fn inline_provider(config: JsonValue, profile: Seq<char>) -> Option<Seq<char>> {
    match field(config, "profiles"@) {
        Some(ps) => match field(ps, profile) {
            Some(p) => nonblank_at(p, "model_provider"@),
            None => None,
        },
        None => None,
    }
}

/// The provider a home uses, from its main `config.toml` (`None` when it cannot be read or
/// parsed, and then the fallback): with a selected profile (`profile`, not blank), the
/// profile's own file decides when its name is a valid file name and the file names a
/// provider, else the profile's inline table, else the top-level `model_provider`.
pub fn read_provider_main(config: &Option<JsonValue>, fallback: &str) -> (r: ProviderRead)
    ensures
        match *config {
            None => r matches ProviderRead::Done(p) && p@ == fallback@,
            Some(c) => {
                let root = root_provider(c, fallback@);
                match nonblank_at(c, "profile"@) {
                    None => r matches ProviderRead::Done(p) && p@ == root,
                    Some(sel) => {
                        let otherwise = match inline_provider(c, sel) {
                            Some(p) => p,
                            None => root,
                        };
                        if forall|i: int| 0 <= i < sel.len() ==> id_char(#[trigger] sel[i]) {
                            r matches ProviderRead::ReadNamed { profile, otherwise: o } && profile@ == sel
                                && o@ == otherwise
                        } else {
                            r matches ProviderRead::Done(p) && p@ == otherwise
                        }
                    },
                }
            },
        },
{
    let c = match config {
        Some(c) => c,
        None => return ProviderRead::Done(fallback.to_string()),
    };
    let root = match nonblank_text(c, "model_provider") {
        Some(p) => p,
        None => fallback.to_string(),
    };
    let sel = match nonblank_text(c, "profile") {
        Some(s) => s,
        None => return ProviderRead::Done(root),
    };
    let inline = match get_field(c, "profiles") {
        Some(ps) => match get_field(ps, sel.as_str()) {
            Some(p) => nonblank_text(p, "model_provider"),
            None => None,
        },
        None => None,
    };
    let otherwise = match inline {
        Some(p) => p,
        None => root,
    };
    let v = chars_of(sel.as_str());
    let mut ok = true;
    let mut i: usize = 0;
    while i < v.len()
        invariant
            i <= v@.len(),
            v@ == sel@,
            ok == forall|j: int| 0 <= j < i ==> id_char(#[trigger] v@[j]),
        decreases v@.len() - i,
    {
        let ch = v[i];
        let good = ('a' <= ch && ch <= 'z') || ('A' <= ch && ch <= 'Z') || ('0' <= ch && ch <= '9')
            || ch == '.' || ch == '-' || ch == '_';
        ok = ok && good;
        i = i + 1;
    }
    if ok {
        ProviderRead::ReadNamed { profile: sel, otherwise }
    } else {
        ProviderRead::Done(otherwise)
    }
}

/// The provider once the selected profile's file was read (`None` when it cannot be read
/// or parsed): its `model_provider` when not blank, else `otherwise`.
pub fn read_provider_named(named: &Option<JsonValue>, otherwise: String) -> (r: String)
    ensures
        r@ == match *named {
            Some(n) => match nonblank_at(n, "model_provider"@) {
                Some(p) => p,
                None => otherwise@,
            },
            None => otherwise@,
        },
{
    match named {
        Some(n) => match nonblank_text(n, "model_provider") {
            Some(p) => p,
            None => otherwise,
        },
        None => otherwise,
    }
}

} // verus!
