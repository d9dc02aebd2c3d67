//! Bindings and the binding encoder: the translation of a configured
//! key/modifier description into the canonical hotkey code string under
//! which it is registered with the OS hotkey subsystem.

use vstd::prelude::*;
use vstd::string::StringExecFns;
use vstd::string::StrSliceExecFns;

use crate::error::InvalidBinding;
use crate::text::join_plus;
use crate::text::lower_of;
use crate::text::lowercased;
use crate::text::spec_join_plus;
use crate::text::str_eq;
use crate::text::upper_of;
use crate::text::uppercased;

verus! {

/// One of the four arrow keys a binding may name instead of a key.
#[derive(Debug, Clone, Copy, PartialEq, Eq, Structural)]
pub enum Arrow {
    Up,
    Down,
    Left,
    Right,
}

/// The name of an arrow key as it appears in its canonical code.
pub open spec fn arrow_name(a: Arrow) -> Seq<char> {
    match a {
        Arrow::Up => "Up"@,
        Arrow::Down => "Down"@,
        Arrow::Left => "Left"@,
        Arrow::Right => "Right"@,
    }
}

/// Which arrow a name denotes, if any.
pub open spec fn spec_arrow_from_name(s: Seq<char>) -> Option<Arrow> {
    if s == "Up"@ {
        Some(Arrow::Up)
    } else if s == "Down"@ {
        Some(Arrow::Down)
    } else if s == "Left"@ {
        Some(Arrow::Left)
    } else if s == "Right"@ {
        Some(Arrow::Right)
    } else {
        None
    }
}

impl Arrow {
    /// The arrow's name, as it appears in its canonical code.
    pub fn name(&self) -> (r: &'static str)
        ensures
            r@ == arrow_name(*self),
    {
        match self {
            Arrow::Up => "Up",
            Arrow::Down => "Down",
            Arrow::Left => "Left",
            Arrow::Right => "Right",
        }
    }

    /// The arrow denoted by the given name, or `None` for any other text.
    pub fn from_name(s: &str) -> (r: Option<Arrow>)
        ensures
            r == spec_arrow_from_name(s@),
    {
        if str_eq(s, "Up") {
            Some(Arrow::Up)
        } else if str_eq(s, "Down") {
            Some(Arrow::Down)
        } else if str_eq(s, "Left") {
            Some(Arrow::Left)
        } else if str_eq(s, "Right") {
            Some(Arrow::Right)
        } else {
            None
        }
    }
}

/// One configured shortcut: an optional free-form key or an arrow, a set of
/// modifier names, and the shell command to run when the shortcut fires.
/// A binding must carry exactly one of key or arrow; one with neither is
/// invalid and is rejected by the encoder, never registered.
#[derive(Debug, Clone)]
pub struct Binding {
    pub key: Option<String>,
    pub arrow: Option<Arrow>,
    pub modifiers: Vec<String>,
    pub command: String,
}

/// An ASCII decimal digit.
pub open spec fn is_digit_char(c: char) -> bool {
    48 <= c as int <= 57
}

/// The numeric value of one ASCII digit.
pub open spec fn digit_val(c: char) -> int {
    c as int - 48
}

pub open spec fn all_digits(s: Seq<char>) -> bool {
    forall|i: int| 0 <= i < s.len() ==> is_digit_char(#[trigger] s[i])
}

/// The value of a sequence of ASCII digits read in base ten.
pub open spec fn digits_value(s: Seq<char>) -> int
    decreases s.len(),
{
    if s.len() == 0 {
        0
    } else {
        digits_value(s.drop_last()) * 10 + digit_val(s.last())
    }
}

/// The digits of a decimal literal: everything after an optional leading `+`.
pub open spec fn digits_part(s: Seq<char>) -> Seq<char> {
    if s.len() > 0 && s[0] == '+' {
        s.drop_first()
    } else {
        s
    }
}

/// Whether the text parses as a `u32`, as `str::parse::<u32>` accepts it:
/// an optional leading `+`, then one or more ASCII digits, with a value
/// that fits in a `u32`.
pub open spec fn is_u32_string(s: Seq<char>) -> bool {
    &&& digits_part(s).len() > 0
    &&& all_digits(digits_part(s))
    &&& digits_value(digits_part(s)) <= u32::MAX
}

proof fn lemma_digits_value_nonneg(s: Seq<char>)
    requires
        all_digits(s),
    ensures
        digits_value(s) >= 0,
    decreases s.len(),
{
    if s.len() > 0 {
        assert(all_digits(s.drop_last()));
        lemma_digits_value_nonneg(s.drop_last());
    }
}

/// The value of a digit string is at least the value of any of its prefixes.
proof fn lemma_digits_value_prefix(s: Seq<char>, k: int)
    requires
        all_digits(s),
        0 <= k <= s.len(),
    ensures
        digits_value(s.take(k)) <= digits_value(s),
    decreases s.len() - k,
{
    if k == s.len() {
        assert(s.take(k) =~= s);
    } else {
        let t = s.take(k + 1);
        assert(t.drop_last() =~= s.take(k));
        lemma_digits_value_nonneg(s.take(k));
        assert(all_digits(t)) by {
            assert(forall|i: int| 0 <= i < t.len() ==> t[i] == s[i]);
        }
        assert(digits_value(s.take(k)) <= digits_value(t));
        lemma_digits_value_prefix(s, k + 1);
    }
}

/// Whether the key text parses as a non-negative integer that fits in a
/// `u32`, matching what `str::parse::<u32>` accepts.
pub fn parses_as_u32(key: &str) -> (r: bool)
    ensures
        r == is_u32_string(key@),
{
    let n = key.unicode_len();
    if n == 0 {
        return false;
    }
    let first = key.get_char(0);
    let start: usize = if first == '+' {
        1
    } else {
        0
    };
    let ghost dp: Seq<char> = digits_part(key@);
    proof {
        assert(dp =~= key@.subrange(start as int, n as int));
    }
    if start == n {
        return false;
    }
    let mut i: usize = start;
    let mut val: u64 = 0;
    while i < n
        invariant
            start <= i <= n,
            n == key@.len(),
            start == 0 || start == 1,
            dp == digits_part(key@),
            dp =~= key@.subrange(start as int, n as int),
            all_digits(dp.take(i - start)),
            val == digits_value(dp.take(i - start)),
            val <= u32::MAX,
        decreases n - i,
    {
        let c = key.get_char(i);
        let cu: u32 = c as u32;
        if cu < 48 || cu > 57 {
            proof {
                assert(dp[i - start] == key@[i as int]);
                assert(!is_digit_char(dp[i - start]));
            }
            return false;
        }
        let d: u64 = (cu - 48) as u64;
        let v2: u64 = val * 10 + d;
        proof {
            let t = dp.take(i - start + 1);
            assert(t.drop_last() =~= dp.take(i - start));
            assert(t.last() == dp[i - start] == key@[i as int]);
        }
        if v2 > 0xFFFF_FFFF {
            proof {
                if all_digits(dp) {
                    lemma_digits_value_prefix(dp, i - start + 1);
                    assert(digits_value(dp) > u32::MAX);
                }
            }
            return false;
        }
        val = v2;
        i = i + 1;
    }
    proof {
        assert(dp.take(n - start) =~= dp);
    }
    true
}

/// The canonical code of a named key, looked up by the lowercase form of the
/// key text; `None` when the text names no key in the table.
pub open spec fn named_code(lk: Seq<char>) -> Option<Seq<char>> {
    if lk == "enter"@ {
        Some("Enter"@)
    } else if lk == "esc"@ || lk == "escape"@ {
        Some("Escape"@)
    } else if lk == "space"@ {
        Some("Space"@)
    } else if lk == "="@ || lk == "equal"@ {
        Some("Equal"@)
    } else if lk == "tab"@ {
        Some("Tab"@)
    } else if lk == "backspace"@ {
        Some("Backspace"@)
    } else if lk == "delete"@ {
        Some("Delete"@)
    } else {
        None
    }
}

/// The modifier prefix: the modifier names joined by `+` and lowercased,
/// prepended to the base code with a `+` separator; the base code alone
/// when there are no modifiers.
pub open spec fn spec_with_modifiers(mods: Seq<Seq<char>>, base: Seq<char>) -> Seq<char> {
    if mods.len() == 0 {
        base
    } else {
        lower_of(spec_join_plus(mods)) + "+"@ + base
    }
}

/// The base code for a key text, in hard priority order: the digit rule
/// first, then the named-key table, then the uppercase letter fallback.
pub open spec fn spec_base_code(k: Seq<char>) -> Seq<char> {
    if is_u32_string(k) {
        "Digit"@ + k
    } else if named_code(lower_of(k)) is Some {
        named_code(lower_of(k)).unwrap()
    } else {
        "Key"@ + upper_of(k)
    }
}

/// The canonical code of a binding: `None` exactly when the binding has
/// neither key nor arrow.
pub open spec fn spec_encode(b: Binding) -> Option<Seq<char>> {
    match b.key {
        Some(k) => Some(spec_with_modifiers(b.modifiers.deep_view(), spec_base_code(k@))),
        None => match b.arrow {
            Some(a) => Some(spec_with_modifiers(b.modifiers.deep_view(), "Arrow"@ + arrow_name(a))),
            None => None,
        },
    }
}

impl Binding {
    /// The canonical code of a named key, or `None` when the key text,
    /// lowercased, is not in the named-key table.
    pub fn try_parse_to_code(key: &str) -> (r: Option<String>)
        ensures
            match r {
                Some(c) => named_code(lower_of(key@)) == Some(c@),
                None => named_code(lower_of(key@)) is None,
            },
    {
        let lk = lowercased(key);
        let lks = lk.as_str();
        if str_eq(lks, "enter") {
            Some(String::from_str("Enter"))
        } else if str_eq(lks, "esc") || str_eq(lks, "escape") {
            Some(String::from_str("Escape"))
        } else if str_eq(lks, "space") {
            Some(String::from_str("Space"))
        } else if str_eq(lks, "=") || str_eq(lks, "equal") {
            Some(String::from_str("Equal"))
        } else if str_eq(lks, "tab") {
            Some(String::from_str("Tab"))
        } else if str_eq(lks, "backspace") {
            Some(String::from_str("Backspace"))
        } else if str_eq(lks, "delete") {
            Some(String::from_str("Delete"))
        } else {
            None
        }
    }

    /// Prefix the base code with the binding's modifiers, lowercased and
    /// joined by `+`; the base code alone when there are none.
    pub fn format_with_modifiers(&self, key_code: &str) -> (r: String)
        ensures
            r@ == spec_with_modifiers(self.modifiers.deep_view(), key_code@),
    {
        if self.modifiers.len() == 0 {
            String::from_str(key_code)
        } else {
            let joined = join_plus(&self.modifiers);
            let mut m = lowercased(joined.as_str());
            m.append("+");
            m.append(key_code);
            m
        }
    }

    /// Encode the binding into its canonical code. The digit rule precedes
    /// the named-key table, which precedes the letter fallback; a binding
    /// with neither key nor arrow is rejected with `InvalidBinding`.
    pub fn encode(&self) -> (r: Result<String, InvalidBinding>)
        ensures
            r is Err <==> self.key is None && self.arrow is None,
            match r {
                Ok(code) => spec_encode(*self) == Some(code@),
                Err(e) => e == InvalidBinding && spec_encode(*self) is None,
            },
    {
        match &self.key {
            Some(key) => {
                let ks = key.as_str();
                let base: String = if parses_as_u32(ks) {
                    let mut b = String::from_str("Digit");
                    b.append(ks);
                    b
                } else if let Some(c) = Self::try_parse_to_code(ks) {
                    c
                } else {
                    let up = uppercased(ks);
                    let mut b = String::from_str("Key");
                    b.append(up.as_str());
                    b
                };
                Ok(self.format_with_modifiers(base.as_str()))
            },
            None => match &self.arrow {
                Some(arrow) => {
                    let mut b = String::from_str("Arrow");
                    b.append(arrow.name());
                    Ok(self.format_with_modifiers(b.as_str()))
                },
                None => Err(InvalidBinding),
            },
        }
    }
}

/// Encode every binding, in order. A single invalid binding is a fatal
/// configuration error: the whole sequence is rejected and nothing is
/// handed on for registration.
pub fn encode_all(bindings: &Vec<Binding>) -> (r: Result<Vec<String>, InvalidBinding>)
    ensures
        r is Err <==> exists|i: int|
            0 <= i < bindings@.len() && spec_encode(#[trigger] bindings@[i]) is None,
        match r {
            Ok(codes) => {
                &&& codes@.len() == bindings@.len()
                &&& forall|i: int|
                    0 <= i < bindings@.len() ==> #[trigger] spec_encode(bindings@[i]) == Some(
                        codes@[i]@,
                    )
            },
            Err(e) => e == InvalidBinding,
        },
{
    let mut codes: Vec<String> = Vec::new();
    let mut i: usize = 0;
    while i < bindings.len()
        invariant
            i <= bindings@.len(),
            codes@.len() == i,
            forall|j: int|
                0 <= j < i ==> #[trigger] spec_encode(bindings@[j]) == Some(codes@[j]@),
        decreases bindings@.len() - i,
    {
        let b = &bindings[i];
        match b.encode() {
            Ok(c) => codes.push(c),
            Err(e) => {
                return Err(e);
            },
        }
        i = i + 1;
    }
    Ok(codes)
}

/// Law: for a binding whose key text parses as a non-negative integer, the
/// digit rule decides the base code; the named-key table and the letter
/// fallback are never consulted.
pub proof fn lemma_digit_rule_precedence(b: Binding)
    requires
        b.key is Some,
        is_u32_string(b.key.unwrap()@),
    ensures
        spec_encode(b) == Some(
            spec_with_modifiers(b.modifiers.deep_view(), "Digit"@ + b.key.unwrap()@),
        ),
{
}

/// The parsed configuration: the ordered sequence of configured bindings.
#[derive(Debug, Clone)]
pub struct Config {
    pub bindings: Vec<Binding>,
}

} // verus!
