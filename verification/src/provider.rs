//! Provider settings: templates, validation of what the user enters, and the checks made
//! around switching providers.
use vstd::prelude::*;
use vstd::utf8::encode_utf8;

use crate::error::AppError;
use crate::platform::Os;
use crate::text::{
    chars_of, concat, eq_ignore_case, has_prefix, lit, lower, opt_chars,
    slice_of, starts_with, string_of, trim, trim_by, trim_end_by, trim_end_char, is_char, ws,
};

verus! {

broadcast use vstd::string::group_string_axioms;

// ---------------------------------------------------------------------------
// Templates
// ---------------------------------------------------------------------------

/// A prefilled provider configuration offered to the user.
#[derive(Debug, Clone)]
pub struct ProviderConfigTemplate {
    pub id: String,
    pub fixed_provider_id: String,
    pub fixed_base_url: String,
}

/// The templates offered: the 711EV relay, with its provider id and API address.
pub fn templates() -> (r: Vec<ProviderConfigTemplate>)
    ensures
        r@.len() == 1,
        r@[0].id@ == "711ev"@,
        r@[0].fixed_provider_id@ == "711EV"@,
        r@[0].fixed_base_url@ == "https://ai.711ev.com/v1"@,
{
    let mut v: Vec<ProviderConfigTemplate> = Vec::new();
    v.push(
        ProviderConfigTemplate {
            id: "711ev".to_string(),
            fixed_provider_id: "711EV".to_string(),
            fixed_base_url: "https://ai.711ev.com/v1".to_string(),
        },
    );
    v
}

// ---------------------------------------------------------------------------
// Validation of user input
// ---------------------------------------------------------------------------

pub open spec fn ascii_alnum(c: char) -> bool {
    ('a' <= c && c <= 'z') || ('A' <= c && c <= 'Z') || ('0' <= c && c <= '9')
}

pub open spec fn id_char(c: char) -> bool {
    ascii_alnum(c) || c == '.' || c == '-' || c == '_'
}

/// A provider id: 1 to 64 ASCII letters, digits, dots, hyphens and underscores, starting
/// with a letter or digit.
pub open spec fn valid_provider_id(v: Seq<char>) -> bool {
    &&& 0 < v.len() <= 64
    &&& ascii_alnum(v[0])
    &&& forall|i: int| 0 <= i < v.len() ==> id_char(#[trigger] v[i])
}

pub open spec fn provider_id_message() -> Seq<char> {
    "供应商 ID 只能使用 ASCII 字母、数字、点、短横线和下划线"@
}

fn is_ascii_alnum(c: char) -> (r: bool)
    ensures
        r == ascii_alnum(c),
{
    ('a' <= c && c <= 'z') || ('A' <= c && c <= 'Z') || ('0' <= c && c <= '9')
}

pub fn validate_provider_id(value: &str) -> (r: Result<(), AppError>)
    ensures
        r is Ok <==> valid_provider_id(value@),
        r matches Err(e) ==> e is Message && e.text() == provider_id_message(),
{
    let v = chars_of(value);
    let mut ok = v.len() > 0 && v.len() <= 64 && is_ascii_alnum(v[0]);
    let mut i: usize = 0;
    while ok && i < v.len()
        invariant
            i <= v@.len(),
            ok ==> 0 < v@.len() <= 64 && ascii_alnum(v@[0]),
            ok ==> forall|j: int| 0 <= j < i ==> id_char(#[trigger] v@[j]),
            !ok ==> !valid_provider_id(v@),
        decreases v@.len() - i,
    {
        let c = v[i];
        if !(is_ascii_alnum(c) || c == '.' || c == '-' || c == '_') {
            ok = false;
        }
        i = i + 1;
    }
    if ok {
        Ok(())
    } else {
        Err(AppError::Message("供应商 ID 只能使用 ASCII 字母、数字、点、短横线和下划线".to_string()))
    }
}

/// The text before its first `?` or `#`.
pub open spec fn before_query(v: Seq<char>) -> Seq<char> {
    v.take(crate::text::index_of_any(v, '?', '#'))
}

pub open spec fn https_message() -> Seq<char> {
    "其他供应商只允许使用 HTTPS 地址"@
}

/// An API address as stored: trimmed, without query or fragment, without trailing slashes;
/// it must be an HTTPS address, so what is left must still start with `https://` and name a
/// host after it (`https://` alone is refused).
pub open spec fn normalized_url(v: Seq<char>) -> Option<Seq<char>> {
    let u = trim_end_by(before_query(trim_by(v, ws())), is_char('/'));
    if has_prefix(u, "https://"@) && u.len() > "https://"@.len() {
        Some(u)
    } else {
        None
    }
}

pub fn normalize_url(value: &str) -> (r: Result<String, AppError>)
    ensures
        match r {
            Ok(u) => normalized_url(value@) == Some(u@),
            Err(e) => normalized_url(value@) is None && e is Message && e.text() == https_message(),
        },
{
    let t = trim(&chars_of(value));
    let cut = crate::text::index_of_any_char(&t, '?', '#');
    let u = slice_of(&t, 0, cut);
    assert(u@ =~= t@.take(cut as int));
    let w = trim_end_char(&u, '/');
    let prefix = lit("https://");
    if !starts_with(&w, &prefix) || w.len() <= prefix.len() {
        return Err(AppError::Message("其他供应商只允许使用 HTTPS 地址".to_string()));
    }
    Ok(string_of(&w))
}

/// A key as shown: its first and last four characters, or only dots when it is short.
pub open spec fn masked(v: Seq<char>) -> Seq<char> {
    if v.len() <= 8 {
        "••••"@
    } else {
        v.take(4) + "..."@ + v.skip(v.len() - 4)
    }
}

pub fn mask_key(value: &str) -> (r: String)
    ensures
        r@ == masked(value@),
{
    let v = chars_of(value);
    if v.len() <= 8 {
        return "••••".to_string();
    }
    let head = slice_of(&v, 0, 4);
    let tail = slice_of(&v, v.len() - 4, v.len());
    assert(head@ =~= v@.take(4));
    assert(tail@ =~= v@.skip(v@.len() - 4));
    string_of(&concat(&concat(&head, &lit("...")), &tail))
}

// ---------------------------------------------------------------------------
// Checks around switching
// ---------------------------------------------------------------------------

pub open spec fn auth_store_message() -> Seq<char> {
    "不支持当前认证存储方式，仅支持 cli_auth_credentials_store = \"file\""@
}

/// Only homes that keep their credentials in `auth.json` (`cli_auth_credentials_store =
/// "file"`) can be switched; `store` is that setting, when it is a text.
pub fn check_auth_store(store: Option<&str>) -> (r: Result<(), AppError>)
    ensures
        r is Ok <==> (store matches Some(s) && s@ == "file"@),
        r matches Err(e) ==> e is Message && e.text() == auth_store_message(),
{
    let supported = match store {
        Some(s) => crate::text::str_eq(s, "file"),
        None => false,
    };
    if supported {
        Ok(())
    } else {
        Err(
            AppError::Message(
                "不支持当前认证存储方式，仅支持 cli_auth_credentials_store = \"file\"".to_string(),
            ),
        )
    }
}

pub open spec fn auth_changed_message() -> Seq<char> {
    "auth.json 在事务恢复前已被其他内容修改，不能覆盖"@
}

/// Before a switch is resumed or rolled back, `auth.json` must still be what it was before
/// the switch or what the switch writes: `current`, `original` and `target` are the
/// hashes of the file now, of the backup (when the file existed) and of the content the
/// switch writes (when it writes one).
pub fn ensure_auth_is_original_or_target(
    current: &Option<String>,
    original: &Option<String>,
    target: &Option<String>,
) -> (r: Result<(), AppError>)
    ensures
        r is Ok <==> (opt_chars(*current) == opt_chars(*original) || opt_chars(*current) == opt_chars(
            *target,
        )),
        r matches Err(e) ==> e is Message && e.text() == auth_changed_message(),
{
    if !same_opt(current, original) && !same_opt(current, target) {
        return Err(AppError::Message("auth.json 在事务恢复前已被其他内容修改，不能覆盖".to_string()));
    }
    Ok(())
}

fn same_opt(a: &Option<String>, b: &Option<String>) -> (r: bool)
    ensures
        r == (opt_chars(*a) == opt_chars(*b)),
{
    match (a, b) {
        (Some(x), Some(y)) => *x == *y,
        (None, None) => true,
        _ => false,
    }
}

/// The home whose credentials a changed file belongs to: the directory of an `auth.json`
/// (in any ASCII case).
pub open spec fn auth_event_home_of(path: Seq<char>, os: Os) -> Option<Seq<char>> {
    match crate::paths::file_name(os, path) {
        Some(n) => if lower(n) == lower("auth.json"@) {
            crate::paths::parent(os, path)
        } else {
            None
        },
        None => None,
    }
}

pub fn auth_event_home(path: &str, os: Os) -> (r: Option<String>)
    ensures
        opt_chars(r) == auth_event_home_of(path@, os),
{
    let p = chars_of(path);
    match crate::paths::path_file_name(os, &p) {
        Some(n) => {
            if eq_ignore_case(&n, &lit("auth.json")) {
                match crate::paths::path_parent(os, &p) {
                    Some(d) => Some(string_of(&d)),
                    None => None,
                }
            } else {
                None
            }
        },
        None => None,
    }
}

// ---------------------------------------------------------------------------
// Digests
// ---------------------------------------------------------------------------

/// What `Sha256::digest` returns for the bytes.
pub uninterp spec fn sha256_of(bytes: Seq<u8>) -> Seq<u8>;

/// `sha2::Sha256::digest`: the SHA-256 digest of the bytes, 32 bytes long.
#[verifier::external_body]
fn sha256_digest(bytes: &[u8]) -> (r: Vec<u8>)
    ensures
        r@ == sha256_of(bytes@),
        r@.len() == 32,
{
    <sha2::Sha256 as sha2::Digest>::digest(bytes).to_vec()
}

pub open spec fn hex_digit(n: u8) -> char {
    if n < 10 {
        (('0' as u8) + n) as char
    } else {
        (('a' as u8) + n - 10) as char
    }
}

/// Each byte as two lowercase hexadecimal digits.
pub open spec fn hex_of(bytes: Seq<u8>) -> Seq<char>
    decreases bytes.len(),
{
    if bytes.len() == 0 {
        seq![]
    } else {
        hex_of(bytes.drop_last()) + seq![
            hex_digit(bytes.last() / 16),
            hex_digit(bytes.last() % 16),
        ]
    }
}

pub(crate) fn hex_char(n: u8) -> (r: char)
    requires
        n < 16,
    ensures
        r == hex_digit(n),
{
    if n < 10 {
        (('0' as u8) + n) as char
    } else {
        (('a' as u8) + n - 10) as char
    }
}

/// Each byte as two lowercase hexadecimal digits, in order (as `hex::encode` writes them).
pub fn hex_encode(bytes: &[u8]) -> (r: String)
    ensures
        r@ == hex_of(bytes@),
{
    let mut out: Vec<char> = Vec::new();
    let mut i: usize = 0;
    while i < bytes.len()
        invariant
            i <= bytes@.len(),
            out@ == hex_of(bytes@.take(i as int)),
        decreases bytes@.len() - i,
    {
        let b = bytes[i];
        out.push(hex_char(b / 16));
        out.push(hex_char(b % 16));
        assert(bytes@.take(i + 1).drop_last() =~= bytes@.take(i as int));
        i = i + 1;
    }
    assert(bytes@.take(bytes@.len() as int) =~= bytes@);
    crate::text::string_of(&out)
}

/// The SHA-256 digest of the bytes in lowercase hexadecimal.
pub fn digest(bytes: &[u8]) -> (r: String)
    ensures
        r@ == hex_of(sha256_of(bytes@)),
{
    let d = sha256_digest(bytes);
    hex_encode(d.as_slice())
}

/// The digest of a path's text, naming the directory kept for its home.
pub fn path_hash(path: &str) -> (r: String)
    ensures
        r@ == hex_of(sha256_of(encode_utf8(path@))),
{
    digest(path.as_bytes())
}

// ---------------------------------------------------------------------------
// Resuming an interrupted switch
// ---------------------------------------------------------------------------

/// How far a provider switch got.
#[derive(Debug, Clone, Copy, PartialEq, Eq, Structural)]
pub enum SwitchPhase {
    Prepared,
    ConfigCommitted,
    AuthCommitted,
    Validated,
}

pub open spec fn phase_of(p: Seq<char>) -> Option<SwitchPhase> {
    if p == "prepared"@ {
        Some(SwitchPhase::Prepared)
    } else if p == "config_committed"@ {
        Some(SwitchPhase::ConfigCommitted)
    } else if p == "auth_committed"@ {
        Some(SwitchPhase::AuthCommitted)
    } else if p == "validated"@ {
        Some(SwitchPhase::Validated)
    } else {
        None
    }
}

pub open spec fn unknown_phase_message(p: Seq<char>) -> Seq<char> {
    "无法识别的供应商切换事务阶段: "@ + p
}

/// The phase recorded for a switch; an unknown one is an error.
pub fn parse_phase(phase: &str) -> (r: Result<SwitchPhase, AppError>)
    ensures
        match r {
            Ok(p) => phase_of(phase@) == Some(p),
            Err(e) => phase_of(phase@) is None && e is Message && e.text() == unknown_phase_message(
                phase@,
            ),
        },
{
    if crate::text::str_eq(phase, "prepared") {
        Ok(SwitchPhase::Prepared)
    } else if crate::text::str_eq(phase, "config_committed") {
        Ok(SwitchPhase::ConfigCommitted)
    } else if crate::text::str_eq(phase, "auth_committed") {
        Ok(SwitchPhase::AuthCommitted)
    } else if crate::text::str_eq(phase, "validated") {
        Ok(SwitchPhase::Validated)
    } else {
        Err(AppError::Message(string_of(&concat(&lit("无法识别的供应商切换事务阶段: "), &chars_of(phase)))))
    }
}

pub open spec fn reread_message(label: Seq<char>) -> Seq<char> {
    label + " 重新读取失败或文件不存在"@
}

pub open spec fn mismatch_message(label: Seq<char>) -> Seq<char> {
    label + " 写入后校验失败"@
}

/// A file written must read back with the expected hash; `actual` is the hash read back,
/// `None` when it could not be read.
pub fn verify_hash(actual: &Option<String>, expected: &str, label: &str) -> (r: Result<(), AppError>)
    ensures
        r is Ok <==> opt_chars(*actual) == Some(expected@),
        r matches Err(e) ==> e is Message && e.text() == if actual is None {
            reread_message(label@)
        } else {
            mismatch_message(label@)
        },
{
    match actual {
        None => Err(
            AppError::Message(string_of(&concat(&chars_of(label), &lit(" 重新读取失败或文件不存在")))),
        ),
        Some(a) => {
            if crate::text::str_eq(a.as_str(), expected) {
                Ok(())
            } else {
                Err(AppError::Message(string_of(&concat(&chars_of(label), &lit(" 写入后校验失败")))))
            }
        },
    }
}

pub open spec fn config_changed_message() -> Seq<char> {
    "config.toml 在事务恢复前已被其他内容修改，不能覆盖"@
}

/// For a switch that was only prepared: whether the configuration candidate must still be
/// written (`Ok(true)`), is already in place (`Ok(false)`), or whether the file was changed
/// by someone else and must not be touched. `current` is the hash of `config.toml` now,
/// `original` that of its backup (when it existed).
pub fn prepared_config_step(
    current: &Option<String>,
    original: &Option<String>,
    expected: &str,
) -> (r: Result<bool, AppError>)
    ensures
        opt_chars(*current) == Some(expected@) ==> r == Ok::<bool, AppError>(false),
        opt_chars(*current) != Some(expected@) && opt_chars(*current) == opt_chars(*original) ==> r
            == Ok::<bool, AppError>(true),
        opt_chars(*current) != Some(expected@) && opt_chars(*current) != opt_chars(*original) ==> (r
            matches Err(e) && e is Message && e.text() == config_changed_message()),
{
    let at_target = match current {
        Some(c) => crate::text::str_eq(c.as_str(), expected),
        None => false,
    };
    if !at_target && !same_opt(current, original) {
        return Err(AppError::Message("config.toml 在事务恢复前已被其他内容修改，不能覆盖".to_string()));
    }
    Ok(!at_target)
}

/// The profiles whose official credentials a poll captures, as indices in order: those whose
/// home keeps its credentials in `auth.json`. `auth_stores[i]` is profile `i`'s
/// `cli_auth_credentials_store` setting, when its `config.toml` could be read and gives a
/// text. A profile whose home lock is taken is skipped by the caller as well.
pub fn poll_official_snapshots(auth_stores: &Vec<Option<String>>) -> (r: Vec<usize>)
    ensures
        r@.len() == Seq::new(auth_stores@.len(), |i: int| i).filter(
            |i: int| opt_chars(auth_stores@[i]) == Some("file"@),
        ).len(),
        forall|k: int|
            0 <= k < r@.len() ==> #[trigger] r@[k] as int == Seq::new(auth_stores@.len(), |i: int| i).filter(
                |i: int| opt_chars(auth_stores@[i]) == Some("file"@),
            )[k],
{
    let ghost pred = |i: int| opt_chars(auth_stores@[i]) == Some("file"@);
    let ghost all = Seq::new(auth_stores@.len(), |i: int| i);
    let mut out: Vec<usize> = Vec::new();
    let mut i: usize = 0;
    while i < auth_stores.len()
        invariant
            i <= auth_stores@.len(),
            pred == (|i: int| opt_chars(auth_stores@[i]) == Some("file"@)),
            all == Seq::new(auth_stores@.len(), |i: int| i),
            out@.len() == all.subrange(0, i as int).filter(pred).len(),
            forall|k: int| 0 <= k < out@.len() ==> #[trigger] out@[k] as int == all.subrange(0, i as int).filter(pred)[k],
        decreases auth_stores@.len() - i,
    {
        proof {
            assert(all.subrange(0, i + 1) =~= all.subrange(0, i as int).push(i as int));
            all.subrange(0, i as int).lemma_filter_push(i as int, pred);
        }
        if check_auth_store(
            match &auth_stores[i] {
                Some(s) => Some(s.as_str()),
                None => None,
            },
        ).is_ok() {
            out.push(i);
        }
        i = i + 1;
    }
    assert(all.subrange(0, auth_stores@.len() as int) =~= all);
    out
}

} // verus!
