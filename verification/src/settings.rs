//! Runtime behaviour settings: the mutable toggles, the merge rules of a
//! settings patch, and the password policy of the password-change flow.
//!
//! A patch body is read as JSON. Its shape, as far as the merge rules look
//! at it, is a [`SettingsPatch`]: empty, unparsable, not an object, or an
//! object whose keys come in the order the JSON map yields them. Only the
//! `behavior` section is mutable; `build`, `server` and `auth` are
//! boot-immutable and any other key is unknown.

use vstd::prelude::*;
use vstd::string::StringExecFns;
use crate::text::{same_text, byte_len, utf8_len, chars_of};
use serde_json::Value;

verus! {

// ─────────────────────────────────────────────────────────────────────────
//  Behaviour toggles
// ─────────────────────────────────────────────────────────────────────────

/// The mutable behaviour toggles.
#[derive(Debug, Clone, Copy, PartialEq, Eq, Structural)]
pub struct BehaviorSettings {
    /// Closing a panel also terminates its terminal, without a dialog.
    pub auto_kill_terminal_on_panel_close: bool,
    /// The file picker lists dot-prefixed entries.
    pub picker_show_hidden: bool,
    /// Switching between two sessions reloads the page.
    pub reload_on_session_switch: bool,
    /// The front end may honour OSC 52 clipboard writes.
    pub osc52_clipboard_write_enabled: bool,
}

/// Default of `reload_on_session_switch` when a stored record omits it.
pub fn default_reload_on_session_switch() -> (b: bool)
    ensures
        b,
{
    true
}

/// The defaults: everything off except the reload on a session switch.
pub open spec fn default_behavior() -> BehaviorSettings {
    BehaviorSettings {
        auto_kill_terminal_on_panel_close: false,
        picker_show_hidden: false,
        reload_on_session_switch: true,
        osc52_clipboard_write_enabled: false,
    }
}

impl Default for BehaviorSettings {
    fn default() -> (r: Self)
        ensures
            r == default_behavior(),
    {
        BehaviorSettings {
            auto_kill_terminal_on_panel_close: false,
            picker_show_hidden: false,
            reload_on_session_switch: default_reload_on_session_switch(),
            osc52_clipboard_write_enabled: false,
        }
    }
}

// ─────────────────────────────────────────────────────────────────────────
//  Patch model
// ─────────────────────────────────────────────────────────────────────────

/// A value under the `behavior` section: a JSON boolean or anything else.
#[derive(Debug, Clone, Copy, PartialEq, Eq, Structural)]
pub enum PatchValue {
    Bool(bool),
    NotBool,
}

/// The value of a top-level key: a JSON object (its entries in map order)
/// or anything else.
#[derive(Debug)]
pub enum PatchSection {
    Object(Vec<(String, PatchValue)>),
    NotObject,
}

/// A patch body as the merge rules read it.
#[derive(Debug)]
pub enum SettingsPatch {
    /// Zero bytes: a no-op that returns the current settings.
    Empty,
    /// Not valid JSON; carries the parser's message.
    InvalidJson(String),
    /// Valid JSON but not an object.
    NotObject,
    /// A JSON object, its entries in map order.
    Object(Vec<(String, PatchSection)>),
}

/// Why a patch was refused (all are `400 Bad Request`).
#[derive(Debug)]
pub enum PatchError {
    InvalidJson(String),
    BodyNotObject,
    /// A boot-immutable section was named; carries its key.
    BootImmutable(String),
    /// An unknown key; carries the key, `behavior.`-prefixed when nested.
    UnknownField(String),
    BehaviorNotObject,
    /// A `behavior` toggle was not a boolean; carries `behavior.<key>`.
    TypeMismatch(String),
}

/// [`PatchError`] with its strings taken as character sequences.
pub enum PatchFault {
    InvalidJson(Seq<char>),
    BodyNotObject,
    BootImmutable(Seq<char>),
    UnknownField(Seq<char>),
    BehaviorNotObject,
    TypeMismatch(Seq<char>),
}

impl View for PatchError {
    type V = PatchFault;

    open spec fn view(&self) -> PatchFault {
        match self {
            PatchError::InvalidJson(m) => PatchFault::InvalidJson(m@),
            PatchError::BodyNotObject => PatchFault::BodyNotObject,
            PatchError::BootImmutable(f) => PatchFault::BootImmutable(f@),
            PatchError::UnknownField(f) => PatchFault::UnknownField(f@),
            PatchError::BehaviorNotObject => PatchFault::BehaviorNotObject,
            PatchError::TypeMismatch(f) => PatchFault::TypeMismatch(f@),
        }
    }
}

impl PatchError {
    pub open spec fn spec_code(&self) -> &'static str {
        match self {
            PatchError::InvalidJson(_) => "invalid_json",
            PatchError::BodyNotObject => "body_not_object",
            PatchError::BootImmutable(_) => "boot_immutable",
            PatchError::UnknownField(_) => "unknown_field",
            PatchError::BehaviorNotObject => "behavior_not_object",
            PatchError::TypeMismatch(_) => "type_mismatch",
        }
    }

    /// The machine-readable `error` code of the response body.
    pub fn code(&self) -> (s: &'static str)
        ensures
            s == self.spec_code(),
    {
        match self {
            PatchError::InvalidJson(_) => "invalid_json",
            PatchError::BodyNotObject => "body_not_object",
            PatchError::BootImmutable(_) => "boot_immutable",
            PatchError::UnknownField(_) => "unknown_field",
            PatchError::BehaviorNotObject => "behavior_not_object",
            PatchError::TypeMismatch(_) => "type_mismatch",
        }
    }
}

// ─────────────────────────────────────────────────────────────────────────
//  Merge rules
// ─────────────────────────────────────────────────────────────────────────

/// Whether some top-level entry has key `k`.
pub open spec fn has_key(entries: Seq<(String, PatchSection)>, k: Seq<char>) -> bool {
    exists|i: int| 0 <= i < entries.len() && (#[trigger] entries[i]).0@ == k
}

/// The first key at or after position `i` that is not `behavior`.
pub open spec fn first_foreign_key(entries: Seq<(String, PatchSection)>, i: int) -> Option<
    Seq<char>,
>
    decreases entries.len() - i,
{
    if 0 <= i < entries.len() {
        if entries[i].0@ != "behavior"@ {
            Some(entries[i].0@)
        } else {
            first_foreign_key(entries, i + 1)
        }
    } else {
        None
    }
}

/// The reported name of a nested key.
pub open spec fn behavior_path(k: Seq<char>) -> Seq<char> {
    "behavior."@ + k
}

/// Applies the `behavior` entries from position `i` on, in order, to `cur`.
pub open spec fn merge_fields(
    cur: BehaviorSettings,
    fields: Seq<(String, PatchValue)>,
    i: int,
) -> Result<BehaviorSettings, PatchFault>
    decreases fields.len() - i,
{
    if 0 <= i < fields.len() {
        let k = fields[i].0@;
        if k == "auto_kill_terminal_on_panel_close"@ {
            match fields[i].1 {
                PatchValue::Bool(b) => merge_fields(
                    BehaviorSettings { auto_kill_terminal_on_panel_close: b, ..cur },
                    fields,
                    i + 1,
                ),
                PatchValue::NotBool => Err(PatchFault::TypeMismatch(behavior_path(k))),
            }
        } else if k == "picker_show_hidden"@ {
            match fields[i].1 {
                PatchValue::Bool(b) => merge_fields(
                    BehaviorSettings { picker_show_hidden: b, ..cur },
                    fields,
                    i + 1,
                ),
                PatchValue::NotBool => Err(PatchFault::TypeMismatch(behavior_path(k))),
            }
        } else if k == "osc52_clipboard_write_enabled"@ {
            match fields[i].1 {
                PatchValue::Bool(b) => merge_fields(
                    BehaviorSettings { osc52_clipboard_write_enabled: b, ..cur },
                    fields,
                    i + 1,
                ),
                PatchValue::NotBool => Err(PatchFault::TypeMismatch(behavior_path(k))),
            }
        } else {
            Err(PatchFault::UnknownField(behavior_path(k)))
        }
    } else {
        Ok(cur)
    }
}

/// The outcome of applying `p` to the settings `cur`: the settings to store
/// and answer with, or the first rule the body breaks.
pub open spec fn patch_result(cur: BehaviorSettings, p: SettingsPatch) -> Result<
    BehaviorSettings,
    PatchFault,
> {
    match p {
        SettingsPatch::Empty => Ok(cur),
        SettingsPatch::InvalidJson(m) => Err(PatchFault::InvalidJson(m@)),
        SettingsPatch::NotObject => Err(PatchFault::BodyNotObject),
        SettingsPatch::Object(entries) => {
            let e = entries@;
            if has_key(e, "build"@) {
                Err(PatchFault::BootImmutable("build"@))
            } else if has_key(e, "server"@) {
                Err(PatchFault::BootImmutable("server"@))
            } else if has_key(e, "auth"@) {
                Err(PatchFault::BootImmutable("auth"@))
            } else {
                match first_foreign_key(e, 0) {
                    Some(k) => Err(PatchFault::UnknownField(k)),
                    None => if e.len() == 0 {
                        Ok(cur)
                    } else {
                        match e[0].1 {
                            PatchSection::NotObject => Err(PatchFault::BehaviorNotObject),
                            PatchSection::Object(fields) => merge_fields(cur, fields@, 0),
                        }
                    },
                }
            }
        }
    }
}

fn has_key_exec(entries: &Vec<(String, PatchSection)>, k: &str) -> (b: bool)
    ensures
        b == has_key(entries@, k@),
{
    let mut i: usize = 0;
    while i < entries.len()
        invariant
            i <= entries.len(),
            forall|j: int| 0 <= j < i ==> (#[trigger] entries@[j]).0@ != k@,
        decreases entries.len() - i,
    {
        if same_text(entries[i].0.as_str(), k) {
            return true;
        }
        i = i + 1;
    }
    false
}

fn foreign_key_exec(entries: &Vec<(String, PatchSection)>) -> (r: Option<String>)
    ensures
        match r {
            Some(k) => first_foreign_key(entries@, 0) == Some(k@),
            None => first_foreign_key(entries@, 0) is None,
        },
{
    let mut i: usize = 0;
    while i < entries.len()
        invariant
            i <= entries.len(),
            first_foreign_key(entries@, 0) == first_foreign_key(entries@, i as int),
        decreases entries.len() - i,
    {
        if !same_text(entries[i].0.as_str(), "behavior") {
            return Some(entries[i].0.clone());
        }
        i = i + 1;
    }
    None
}

fn behavior_path_of(k: &String) -> (s: String)
    ensures
        s@ == behavior_path(k@),
{
    let mut s = String::from_str("behavior.");
    s.append(k.as_str());
    s
}

fn merge_exec(cur: BehaviorSettings, fields: &Vec<(String, PatchValue)>) -> (r: Result<
    BehaviorSettings,
    PatchError,
>)
    ensures
        match r {
            Ok(b) => merge_fields(cur, fields@, 0) == Ok::<BehaviorSettings, PatchFault>(b),
            Err(e) => merge_fields(cur, fields@, 0) == Err::<BehaviorSettings, PatchFault>(e@),
        },
{
    let mut next = cur;
    let mut i: usize = 0;
    while i < fields.len()
        invariant
            i <= fields.len(),
            merge_fields(cur, fields@, 0) == merge_fields(next, fields@, i as int),
        decreases fields.len() - i,
    {
        let k = &fields[i].0;
        let v = fields[i].1;
        if same_text(k.as_str(), "auto_kill_terminal_on_panel_close") {
            match v {
                PatchValue::Bool(b) => {
                    next = BehaviorSettings { auto_kill_terminal_on_panel_close: b, ..next };
                },
                PatchValue::NotBool => {
                    return Err(PatchError::TypeMismatch(behavior_path_of(k)));
                },
            }
        } else if same_text(k.as_str(), "picker_show_hidden") {
            match v {
                PatchValue::Bool(b) => {
                    next = BehaviorSettings { picker_show_hidden: b, ..next };
                },
                PatchValue::NotBool => {
                    return Err(PatchError::TypeMismatch(behavior_path_of(k)));
                },
            }
        } else if same_text(k.as_str(), "osc52_clipboard_write_enabled") {
            match v {
                PatchValue::Bool(b) => {
                    next = BehaviorSettings { osc52_clipboard_write_enabled: b, ..next };
                },
                PatchValue::NotBool => {
                    return Err(PatchError::TypeMismatch(behavior_path_of(k)));
                },
            }
        } else {
            return Err(PatchError::UnknownField(behavior_path_of(k)));
        }
        i = i + 1;
    }
    Ok(next)
}

/// Applies a settings patch to the current settings. On success the result
/// is what the server stores and answers with; a refused patch changes
/// nothing.
pub fn apply_settings_patch(current: BehaviorSettings, patch: &SettingsPatch) -> (r: Result<
    BehaviorSettings,
    PatchError,
>)
    ensures
        match r {
            Ok(b) => patch_result(current, *patch) == Ok::<BehaviorSettings, PatchFault>(b),
            Err(e) => patch_result(current, *patch) == Err::<BehaviorSettings, PatchFault>(e@),
        },
{
    match patch {
        SettingsPatch::Empty => Ok(current),
        SettingsPatch::InvalidJson(m) => Err(PatchError::InvalidJson(m.clone())),
        SettingsPatch::NotObject => Err(PatchError::BodyNotObject),
        SettingsPatch::Object(entries) => {
            if has_key_exec(entries, "build") {
                return Err(PatchError::BootImmutable(String::from_str("build")));
            }
            if has_key_exec(entries, "server") {
                return Err(PatchError::BootImmutable(String::from_str("server")));
            }
            if has_key_exec(entries, "auth") {
                return Err(PatchError::BootImmutable(String::from_str("auth")));
            }
            if let Some(k) = foreign_key_exec(entries) {
                return Err(PatchError::UnknownField(k));
            }
            if entries.len() == 0 {
                return Ok(current);
            }
            match &entries[0].1 {
                PatchSection::NotObject => Err(PatchError::BehaviorNotObject),
                PatchSection::Object(fields) => merge_exec(current, fields),
            }
        },
    }
}

// ─────────────────────────────────────────────────────────────────────────
//  Reading a patch body
// ─────────────────────────────────────────────────────────────────────────

/// The patch model of a non-empty body as the JSON parser reads it: the
/// parser's message when it is not JSON, else the value's shape, with the
/// keys of each object in the parser's (sorted) map order.
pub uninterp spec fn patch_of_json(body: Seq<u8>) -> SettingsPatch;

/// Parses a body as JSON and reads it into the patch model.
/// Trusted: `serde_json::from_slice::<serde_json::Value>`; the contract
/// says only that the result is the named reading of exactly these bytes
/// (serde_json's default map is sorted, so it depends on the bytes alone).
/// The body tells the value's variants apart, one arm each.
#[verifier::external_body]
fn parse_patch_json(body: &[u8]) -> (p: SettingsPatch)
    ensures
        p == patch_of_json(body@),
{
    match serde_json::from_slice::<Value>(body) {
        Err(e) => SettingsPatch::InvalidJson(e.to_string()),
        Ok(Value::Object(top)) => SettingsPatch::Object(top.into_iter().map(|(k, v)| (k, match v {
            Value::Object(inner) => PatchSection::Object(inner.into_iter().map(|(ik, iv)| (ik, match iv {
                Value::Bool(b) => PatchValue::Bool(b),
                _ => PatchValue::NotBool,
            })).collect()),
            _ => PatchSection::NotObject,
        })).collect()),
        Ok(_) => SettingsPatch::NotObject,
    }
}

/// Applies a raw patch body to the current settings: an empty body is a
/// no-op; any other body is read as JSON and judged by the merge rules.
pub fn settings_patch_from_body(current: BehaviorSettings, body: &[u8]) -> (r: Result<
    BehaviorSettings,
    PatchError,
>)
    ensures
        body@.len() == 0 ==> r == Ok::<BehaviorSettings, PatchError>(current),
        body@.len() > 0 ==> match r {
            Ok(b) => patch_result(current, patch_of_json(body@)) == Ok::<BehaviorSettings, PatchFault>(
                b,
            ),
            Err(e) => patch_result(current, patch_of_json(body@)) == Err::<
                BehaviorSettings,
                PatchFault,
            >(e@),
        },
{
    if body.len() == 0 {
        return Ok(current);
    }
    let patch = parse_patch_json(body);
    apply_settings_patch(current, &patch)
}

// ─────────────────────────────────────────────────────────────────────────
//  What a patch does
// ─────────────────────────────────────────────────────────────────────────

/// The last boolean given for `key` among the entries from position `i` on
/// (`None` when the key is absent there).
pub open spec fn last_bool(f: Seq<(String, PatchValue)>, i: int, key: Seq<char>) -> Option<bool>
    decreases f.len() - i,
{
    if 0 <= i < f.len() {
        match last_bool(f, i + 1, key) {
            Some(b) => Some(b),
            None => if f[i].0@ == key {
                match f[i].1 {
                    PatchValue::Bool(b) => Some(b),
                    PatchValue::NotBool => None,
                }
            } else {
                None
            },
        }
    } else {
        None
    }
}

pub open spec fn or_keep(given: Option<bool>, kept: bool) -> bool {
    match given {
        Some(b) => b,
        None => kept,
    }
}

/// `c` with each toggle named in the entries from position `i` on set to
/// the last value given for it; `reload_on_session_switch` is never set.
pub open spec fn overlay_from(c: BehaviorSettings, f: Seq<(String, PatchValue)>, i: int) -> BehaviorSettings {
    BehaviorSettings {
        auto_kill_terminal_on_panel_close: or_keep(
            last_bool(f, i, "auto_kill_terminal_on_panel_close"@),
            c.auto_kill_terminal_on_panel_close,
        ),
        picker_show_hidden: or_keep(last_bool(f, i, "picker_show_hidden"@), c.picker_show_hidden),
        reload_on_session_switch: c.reload_on_session_switch,
        osc52_clipboard_write_enabled: or_keep(
            last_bool(f, i, "osc52_clipboard_write_enabled"@),
            c.osc52_clipboard_write_enabled,
        ),
    }
}

/// The `behavior` entries a patch carries: those of an object body's
/// `behavior` object, none otherwise.
pub open spec fn patch_fields(p: SettingsPatch) -> Seq<(String, PatchValue)> {
    match p {
        SettingsPatch::Object(e) => if e@.len() > 0 {
            match e@[0].1 {
                PatchSection::Object(f) => f@,
                PatchSection::NotObject => Seq::empty(),
            }
        } else {
            Seq::empty()
        },
        _ => Seq::empty(),
    }
}

proof fn lemma_merge_shape(c: BehaviorSettings, d: BehaviorSettings, f: Seq<(String, PatchValue)>, i: int)
    requires
        0 <= i <= f.len(),
    ensures
        merge_fields(c, f, i) is Ok <==> merge_fields(d, f, i) is Ok,
        merge_fields(c, f, i) is Err ==> merge_fields(d, f, i) == merge_fields(c, f, i),
        merge_fields(c, f, i) is Ok ==> merge_fields(c, f, i) == Ok::<BehaviorSettings, PatchFault>(
            overlay_from(c, f, i),
        ),
    decreases f.len() - i,
{
    reveal_strlit("auto_kill_terminal_on_panel_close");
    reveal_strlit("picker_show_hidden");
    reveal_strlit("osc52_clipboard_write_enabled");
    if i < f.len() {
        let k = f[i].0@;
        match f[i].1 {
            PatchValue::Bool(b) => {
                let a = "auto_kill_terminal_on_panel_close"@;
                let h = "picker_show_hidden"@;
                let o = "osc52_clipboard_write_enabled"@;
                assert(a.len() != h.len() && a.len() != o.len() && h.len() != o.len());
                if k == a {
                    let c2 = BehaviorSettings { auto_kill_terminal_on_panel_close: b, ..c };
                    lemma_merge_shape(
                        c2,
                        BehaviorSettings { auto_kill_terminal_on_panel_close: b, ..d },
                        f,
                        i + 1,
                    );
                    assert(last_bool(f, i, h) == last_bool(f, i + 1, h));
                    assert(last_bool(f, i, o) == last_bool(f, i + 1, o));
                    assert(overlay_from(c2, f, i + 1) == overlay_from(c, f, i));
                } else if k == h {
                    let c2 = BehaviorSettings { picker_show_hidden: b, ..c };
                    lemma_merge_shape(
                        c2,
                        BehaviorSettings { picker_show_hidden: b, ..d },
                        f,
                        i + 1,
                    );
                    assert(last_bool(f, i, a) == last_bool(f, i + 1, a));
                    assert(last_bool(f, i, o) == last_bool(f, i + 1, o));
                    assert(overlay_from(c2, f, i + 1) == overlay_from(c, f, i));
                } else if k == o {
                    let c2 = BehaviorSettings { osc52_clipboard_write_enabled: b, ..c };
                    lemma_merge_shape(
                        c2,
                        BehaviorSettings { osc52_clipboard_write_enabled: b, ..d },
                        f,
                        i + 1,
                    );
                    assert(last_bool(f, i, a) == last_bool(f, i + 1, a));
                    assert(last_bool(f, i, h) == last_bool(f, i + 1, h));
                    assert(overlay_from(c2, f, i + 1) == overlay_from(c, f, i));
                }
            },
            PatchValue::NotBool => {},
        }
    }
}

/// A patch that is accepted sets each toggle it names to the last value
/// it gives for it and leaves every other setting as it was;
/// `reload_on_session_switch` cannot be changed by a patch.
pub proof fn lemma_patch_sets_only_named_toggles(cur: BehaviorSettings, p: SettingsPatch)
    requires
        patch_result(cur, p) is Ok,
    ensures
        patch_result(cur, p) == Ok::<BehaviorSettings, PatchFault>(overlay_from(cur, patch_fields(p), 0)),
{
    match p {
        SettingsPatch::Object(e) => {
            if e@.len() > 0 {
                match e@[0].1 {
                    PatchSection::Object(f) => {
                        lemma_merge_shape(cur, cur, f@, 0);
                    },
                    PatchSection::NotObject => {},
                }
            }
        },
        _ => {},
    }
}

/// Applying an accepted patch a second time, to the settings it produced,
/// changes nothing more.
pub proof fn lemma_patch_idempotent(cur: BehaviorSettings, p: SettingsPatch)
    requires
        patch_result(cur, p) is Ok,
    ensures
        patch_result(patch_result(cur, p)->Ok_0, p) == patch_result(cur, p),
{
    let n = patch_result(cur, p)->Ok_0;
    lemma_patch_sets_only_named_toggles(cur, p);
    match p {
        SettingsPatch::Object(e) => {
            if e@.len() > 0 {
                match e@[0].1 {
                    PatchSection::Object(f) => {
                        lemma_merge_shape(cur, n, f@, 0);
                        lemma_merge_shape(n, n, f@, 0);
                    },
                    PatchSection::NotObject => {},
                }
            }
        },
        _ => {},
    }
}

/// Whether a patch is refused, and why, does not depend on the current
/// settings.
pub proof fn lemma_patch_refusal_ignores_current(
    c: BehaviorSettings,
    d: BehaviorSettings,
    p: SettingsPatch,
)
    requires
        patch_result(c, p) is Err,
    ensures
        patch_result(d, p) == patch_result(c, p),
{
    match p {
        SettingsPatch::Object(e) => {
            if e@.len() > 0 {
                match e@[0].1 {
                    PatchSection::Object(f) => {
                        lemma_merge_shape(c, d, f@, 0);
                    },
                    PatchSection::NotObject => {},
                }
            }
        },
        _ => {},
    }
}

// ─────────────────────────────────────────────────────────────────────────
//  Password policy
// ─────────────────────────────────────────────────────────────────────────

/// Minimum password length, in bytes.
pub const MIN_PASSWORD_LENGTH: usize = 8;

pub open spec fn is_ascii_letter(c: char) -> bool {
    (65 <= c as u32 <= 90) || (97 <= c as u32 <= 122)
}

pub open spec fn is_ascii_digit(c: char) -> bool {
    48 <= c as u32 <= 57
}

/// The password rule: at least [`MIN_PASSWORD_LENGTH`] bytes, at least one
/// ASCII letter and at least one ASCII digit.
pub open spec fn password_ok(p: Seq<char>) -> bool {
    &&& utf8_len(p) >= MIN_PASSWORD_LENGTH
    &&& exists|i: int| 0 <= i < p.len() && is_ascii_letter(#[trigger] p[i])
    &&& exists|i: int| 0 <= i < p.len() && is_ascii_digit(#[trigger] p[i])
}

/// The password rule, by witnesses: a password of at least 8 bytes is
/// accepted as soon as some character (at any position) is an ASCII letter
/// and some character is an ASCII digit, and only then.
pub proof fn lemma_password_rule(p: Seq<char>)
    ensures
        password_ok(p) <==> (utf8_len(p) >= 8 && (exists|i: int|
            0 <= i < p.len() && ((65 <= #[trigger] p[i] as u32 <= 90) || (97 <= p[i] as u32
                <= 122))) && (exists|j: int| 0 <= j < p.len() && 48 <= #[trigger] p[j] as u32 <= 57)),
{
    if utf8_len(p) >= 8 && (exists|i: int|
        0 <= i < p.len() && ((65 <= #[trigger] p[i] as u32 <= 90) || (97 <= p[i] as u32 <= 122)))
        && (exists|j: int| 0 <= j < p.len() && 48 <= #[trigger] p[j] as u32 <= 57) {
        let i = choose|i: int|
            0 <= i < p.len() && ((65 <= #[trigger] p[i] as u32 <= 90) || (97 <= p[i] as u32 <= 122));
        let j = choose|j: int| 0 <= j < p.len() && 48 <= #[trigger] p[j] as u32 <= 57;
        assert(is_ascii_letter(p[i]));
        assert(is_ascii_digit(p[j]));
    }
    if password_ok(p) {
        let i = choose|i: int| 0 <= i < p.len() && is_ascii_letter(#[trigger] p[i]);
        let j = choose|j: int| 0 <= j < p.len() && is_ascii_digit(#[trigger] p[j]);
        assert((65 <= p[i] as u32 <= 90) || (97 <= p[i] as u32 <= 122));
        assert(48 <= p[j] as u32 <= 57);
    }
}

/// Whether `new_password` meets the password rule.
pub fn password_validates(new_password: &str) -> (b: bool)
    ensures
        b == password_ok(new_password@),
        b <==> (utf8_len(new_password@) >= 8 && (exists|i: int|
            0 <= i < new_password@.len() && ((65 <= #[trigger] new_password@[i] as u32 <= 90) || (
            97 <= new_password@[i] as u32 <= 122))) && (exists|j: int|
            0 <= j < new_password@.len() && 48 <= #[trigger] new_password@[j] as u32 <= 57)),
{
    proof {
        lemma_password_rule(new_password@);
    }
    if byte_len(new_password) < MIN_PASSWORD_LENGTH {
        return false;
    }
    let cs = chars_of(new_password);
    let mut has_letter = false;
    let mut has_digit = false;
    let mut i: usize = 0;
    while i < cs.len()
        invariant
            i <= cs.len(),
            cs@ == new_password@,
            has_letter == exists|j: int| 0 <= j < i && is_ascii_letter(#[trigger] cs@[j]),
            has_digit == exists|j: int| 0 <= j < i && is_ascii_digit(#[trigger] cs@[j]),
        decreases cs.len() - i,
    {
        let c = cs[i];
        let n = c as u32;
        if (65 <= n && n <= 90) || (97 <= n && n <= 122) {
            has_letter = true;
        }
        if 48 <= n && n <= 57 {
            has_digit = true;
        }
        i = i + 1;
    }
    has_letter && has_digit
}

/// Why a password change, or another cookie-bound settings action, was
/// refused.
#[derive(Debug, Clone, Copy, PartialEq, Eq, Structural)]
pub enum PasswordRejection {
    /// No session cookie came with the request (`403`).
    SessionCookieRequired,
    /// A password is set and the current one was missing or wrong (`401`).
    CurrentPasswordMismatch,
    /// The new password breaks the password rule (`400`).
    WeakPassword,
}

impl PasswordRejection {
    pub open spec fn spec_status(&self) -> u16 {
        match self {
            PasswordRejection::SessionCookieRequired => 403,
            PasswordRejection::CurrentPasswordMismatch => 401,
            PasswordRejection::WeakPassword => 400,
        }
    }

    pub open spec fn spec_code(&self) -> &'static str {
        match self {
            PasswordRejection::SessionCookieRequired => "session_cookie_required",
            PasswordRejection::CurrentPasswordMismatch => "current_password_mismatch",
            PasswordRejection::WeakPassword => "weak_password",
        }
    }

    /// HTTP status of the refusal.
    pub fn status(&self) -> (s: u16)
        ensures
            s == self.spec_status(),
    {
        match self {
            PasswordRejection::SessionCookieRequired => 403,
            PasswordRejection::CurrentPasswordMismatch => 401,
            PasswordRejection::WeakPassword => 400,
        }
    }

    /// The machine-readable `error` code of the refusal.
    pub fn code(&self) -> (s: &'static str)
        ensures
            s == self.spec_code(),
    {
        match self {
            PasswordRejection::SessionCookieRequired => "session_cookie_required",
            PasswordRejection::CurrentPasswordMismatch => "current_password_mismatch",
            PasswordRejection::WeakPassword => "weak_password",
        }
    }
}

/// Cookie-bound settings actions (password change, logout of all other
/// sessions) need the caller's session cookie.
pub fn session_cookie_check(cookie_present: bool) -> (r: Result<(), PasswordRejection>)
    ensures
        r == (if cookie_present {
            Ok::<(), PasswordRejection>(())
        } else {
            Err(PasswordRejection::SessionCookieRequired)
        }),
{
    if cookie_present {
        Ok(())
    } else {
        Err(PasswordRejection::SessionCookieRequired)
    }
}

/// The verdict on a password change before the new hash is computed.
pub open spec fn password_change_verdict(
    password_set: bool,
    current_verified: Option<bool>,
    new_password: Seq<char>,
) -> Result<(), PasswordRejection> {
    if password_set && current_verified != Some(true) {
        Err(PasswordRejection::CurrentPasswordMismatch)
    } else if !password_ok(new_password) {
        Err(PasswordRejection::WeakPassword)
    } else {
        Ok(())
    }
}

/// Decides a password change. `password_set` says whether a password hash
/// is stored; `current_verified` is `None` when the body carried no current
/// password, else whether it verified against the stored hash (the caller
/// only verifies when a hash is stored). With no stored hash this is an
/// initial set and the current password is not asked for.
pub fn password_change_decision(
    password_set: bool,
    current_verified: Option<bool>,
    new_password: &str,
) -> (r: Result<(), PasswordRejection>)
    ensures
        r == password_change_verdict(password_set, current_verified, new_password@),
{
    if password_set {
        match current_verified {
            Some(true) => {},
            _ => {
                return Err(PasswordRejection::CurrentPasswordMismatch);
            },
        }
    }
    if !password_validates(new_password) {
        return Err(PasswordRejection::WeakPassword);
    }
    Ok(())
}

} // verus!
