//! Sign-in helpers: the session cookie's name and the open-redirect guard
//! applied to a post-login `redirect` target.

use vstd::prelude::*;
use vstd::string::StringExecFns;
use crate::text::chars_of;

verus! {

/// Name of the session cookie issued by the sign-in flow.
pub const COOKIE_NAME_STR: &'static str = "gtmux_auth";

/// ASCII control characters (C0 and DEL): never allowed in a redirect,
/// which would otherwise smuggle header lines.
pub open spec fn is_control(c: char) -> bool {
    c as u32 <= 31 || c as u32 == 127
}

/// A same-origin path: starts with one `/` not followed by `/` or `\`
/// (which a browser reads as another host), and holds no control character.
pub open spec fn is_safe_redirect(t: Seq<char>) -> bool {
    &&& t.len() >= 1
    &&& t[0] == '/'
    &&& !(t.len() >= 2 && (t[1] == '/' || t[1] == '\\'))
    &&& forall|i: int| 0 <= i < t.len() ==> !is_control(#[trigger] t[i])
}

/// Where a sign-in sends the browser: the requested target when it is a
/// safe same-origin path, else `/`.
pub open spec fn redirect_target(target: Option<Seq<char>>) -> Seq<char> {
    match target {
        Some(t) => if is_safe_redirect(t) {
            t
        } else {
            "/"@
        },
        None => "/"@,
    }
}

/// `target` as characters.
pub open spec fn opt_text(target: Option<&str>) -> Option<Seq<char>> {
    match target {
        Some(t) => Some(t@),
        None => None,
    }
}

fn safe_redirect_exec(t: &str) -> (b: bool)
    ensures
        b == is_safe_redirect(t@),
{
    let cs = chars_of(t);
    if cs.len() < 1 || cs[0] != '/' {
        return false;
    }
    if cs.len() >= 2 && (cs[1] == '/' || cs[1] == '\\') {
        return false;
    }
    let mut i: usize = 0;
    while i < cs.len()
        invariant
            i <= cs.len(),
            cs@ == t@,
            forall|j: int| 0 <= j < i ==> !is_control(#[trigger] cs@[j]),
        decreases cs.len() - i,
    {
        let n = cs[i] as u32;
        if n <= 31 || n == 127 {
            return false;
        }
        i = i + 1;
    }
    true
}

/// Normalises a post-login redirect target, refusing open redirects:
/// anything but a safe same-origin path becomes `/`.
pub fn normalise_redirect_target(target: Option<&str>) -> (r: String)
    ensures
        r@ == redirect_target(opt_text(target)),
{
    match target {
        Some(t) => {
            if safe_redirect_exec(t) {
                String::from_str(t)
            } else {
                String::from_str("/")
            }
        },
        None => String::from_str("/"),
    }
}

/// What a sign-in answers is always a safe same-origin path, and
/// normalising it again changes nothing.
pub proof fn lemma_redirect_target_safe_and_stable(target: Option<Seq<char>>)
    ensures
        is_safe_redirect(redirect_target(target)),
        redirect_target(Some(redirect_target(target))) == redirect_target(target),
{
    reveal_strlit("/");
    let r = redirect_target(target);
    assert(is_safe_redirect("/"@)) by {
        assert forall|i: int| 0 <= i < "/"@.len() implies !is_control(#[trigger] "/"@[i]) by {
            assert(i == 0);
        }
    }
}

} // verus!
