//! Key names: the evdev name of a key code, and the reverse lookup.
//!
//! evdev 0.12 prints a key code with its constant's name (`KEY_A`), or as
//! `unknown key: N` when the code has no constant; KEY_MACRO1–KEY_MACRO30
//! (0x290–0x2AD) are among the unnamed ones, so they get their canonical
//! names here.
use vstd::prelude::*;
use crate::constants::{KEY_MACRO_BASE, KEY_MACRO_MAX, KEY_CODE_LIMIT};
use crate::text::{chars_of, chars_eq, extend_str, push_decimal, dec_digits, zero_pad, string_from_chars, starts_with};

verus! {

/// What evdev's `Debug` prints for the key with this code.
pub uninterp spec fn key_debug_name(code: u16) -> Seq<char>;

/// `format!("{:?}", evdev::Key::new(code))`: the evdev name of a key code.
/// Its contract names the result; which codes evdev knows by name is not
/// restated here.
#[verifier::external_body]
pub(crate) fn evdev_key_name(code: u16) -> (r: String)
    ensures
        r@ == key_debug_name(code),
{
    format!("{:?}", evdev::Key::new(code))
}

/// `"KEY_MACRO"` followed by the decimal index.
pub open spec fn macro_key_name(idx: nat) -> Seq<char> {
    "KEY_MACRO"@ + dec_digits(idx)
}

/// The canonical name of a key code: the evdev name, except that codes in the
/// KEY_MACRO range that evdev prints as unknown are named `KEY_MACROn`.
pub open spec fn key_name_spec(code: u16) -> Seq<char> {
    let s = key_debug_name(code);
    if "unknown key:"@.is_prefix_of(s) && KEY_MACRO_BASE <= code <= KEY_MACRO_MAX {
        macro_key_name((code - KEY_MACRO_BASE + 1) as nat)
    } else {
        s
    }
}

/// The canonical string name for a key code (the inverse of `parse_key`).
pub fn key_name(code: u16) -> (r: String)
    ensures
        r@ == key_name_spec(code),
{
    let s = evdev_key_name(code);
    let cs = chars_of(s.as_str());
    let prefix = chars_of("unknown key:");
    proof {
        reveal_strlit("unknown key:");
    }
    if starts_with(cs.as_slice(), prefix.as_slice()) && KEY_MACRO_BASE <= code && code <= KEY_MACRO_MAX {
        let mut out: Vec<char> = Vec::new();
        extend_str(&mut out, "KEY_MACRO");
        push_decimal(&mut out, (code - KEY_MACRO_BASE + 1) as u128, 0);
        proof {
            let d = dec_digits((code - KEY_MACRO_BASE + 1) as nat);
            assert(zero_pad(d, 0) == d);
        }
        string_from_chars(out.as_slice())
    } else {
        s
    }
}

/// The key code that a name denotes, as `parse_key` resolves it: the macro
/// names `KEY_MACRO1`–`KEY_MACRO30` first; otherwise the last code below
/// 0x300 whose evdev name it is.
pub open spec fn parse_key_spec(name: Seq<char>) -> Option<u16> {
    if exists|idx: nat| 1 <= idx <= 30 && name == macro_key_name(idx) {
        let idx = choose|idx: nat| 1 <= idx <= 30 && name == macro_key_name(idx);
        Some((KEY_MACRO_BASE + idx - 1) as u16)
    } else if exists|c: u16| c < KEY_CODE_LIMIT && #[trigger] key_debug_name(c) == name {
        let c = choose|c: u16|
            c < KEY_CODE_LIMIT && key_debug_name(c) == name && forall|d: u16|
                c < d < KEY_CODE_LIMIT ==> #[trigger] key_debug_name(d) != name;
        Some(c)
    } else {
        None
    }
}

/// All key names that `parse_key` looks up, gathered once.
pub struct KeyTable {
    names: Vec<Vec<char>>,
    macro_names: Vec<Vec<char>>,
}

impl KeyTable {
    /// The table holds the evdev name of every code below 0x300 and the
    /// thirty macro-key names.
    pub closed spec fn wf(&self) -> bool {
        &&& self.names@.len() == KEY_CODE_LIMIT
        &&& forall|c: u16| c < KEY_CODE_LIMIT ==> #[trigger] self.names@[c as int]@ == key_debug_name(c)
        &&& self.macro_names@.len() == 30
        &&& forall|i: int| 0 <= i < 30 ==> #[trigger] self.macro_names@[i]@ == macro_key_name((i + 1) as nat)
    }

    /// Builds the table.
    pub fn new() -> (t: KeyTable)
        ensures
            t.wf(),
    {
        let mut names: Vec<Vec<char>> = Vec::new();
        let mut c: u16 = 0;
        while c < KEY_CODE_LIMIT as u16
            invariant
                c <= KEY_CODE_LIMIT,
                names@.len() == c,
                forall|k: u16| k < c ==> #[trigger] names@[k as int]@ == key_debug_name(k),
            decreases KEY_CODE_LIMIT - c,
        {
            let s = evdev_key_name(c);
            names.push(chars_of(s.as_str()));
            c = c + 1;
        }
        let mut macro_names: Vec<Vec<char>> = Vec::new();
        let mut idx: u16 = 1;
        while idx <= 30
            invariant
                1 <= idx <= 31,
                macro_names@.len() == idx - 1,
                forall|i: int| 0 <= i < idx - 1 ==> #[trigger] macro_names@[i]@ == macro_key_name((i + 1) as nat),
            decreases 31 - idx,
        {
            let mut out: Vec<char> = Vec::new();
            extend_str(&mut out, "KEY_MACRO");
            push_decimal(&mut out, idx as u128, 0);
            proof {
                let d = dec_digits(idx as nat);
                assert(zero_pad(d, 0) == d);
            }
            macro_names.push(out);
            idx = idx + 1;
        }
        KeyTable { names, macro_names }
    }

    /// Converts a key name (such as `"KEY_A"`) to its code.
    pub fn parse_key(&self, name: &str) -> (r: Option<u16>)
        requires
            self.wf(),
        ensures
            r == parse_key_spec(name@),
    {
        let cs = chars_of(name);
        self.parse_key_chars(cs.as_slice())
    }

    /// Whether the name of `code` resolves back to `code` for the reasons
    /// the round-trip laws give: see `names_back`.
    pub fn names_back_to(&self, code: u16) -> (r: bool)
        requires
            self.wf(),
            code < KEY_CODE_LIMIT,
        ensures
            r == names_back(code),
    {
        let raw = &self.names[code as usize];
        assert(raw@ == key_debug_name(code));
        let unknown = chars_of("unknown key:");
        let unnamed = starts_with(raw.as_slice(), unknown.as_slice());
        let in_macro_range = KEY_MACRO_BASE <= code && code <= KEY_MACRO_MAX;
        if unnamed && in_macro_range {
            return true;
        }
        let ghost first = "unknown key:"@.is_prefix_of(key_debug_name(code)) && KEY_MACRO_BASE <= code <= KEY_MACRO_MAX;
        assert(!first);
        let mut i: usize = 0;
        while i < 30
            invariant
                self.wf(),
                !first,
                first == ("unknown key:"@.is_prefix_of(key_debug_name(code)) && KEY_MACRO_BASE <= code <= KEY_MACRO_MAX),
                raw@ == key_debug_name(code),
                i <= 30,
                forall|k: nat| 1 <= k <= i ==> key_debug_name(code) != #[trigger] macro_key_name(k),
            decreases 30 - i,
        {
            if chars_eq(self.macro_names[i].as_slice(), raw.as_slice()) {
                assert(self.macro_names@[i as int]@ == macro_key_name((i + 1) as nat));
                assert(key_debug_name(code) == macro_key_name((i + 1) as nat));
                return false;
            }
            assert(self.macro_names@[i as int]@ == macro_key_name((i + 1) as nat));
            i = i + 1;
        }
        let mut d: usize = code as usize + 1;
        while d < KEY_CODE_LIMIT as usize
            invariant
                self.wf(),
                !first,
                first == ("unknown key:"@.is_prefix_of(key_debug_name(code)) && KEY_MACRO_BASE <= code <= KEY_MACRO_MAX),
                forall|k: nat| 1 <= k <= 30 ==> key_debug_name(code) != #[trigger] macro_key_name(k),
                raw@ == key_debug_name(code),
                code < d <= KEY_CODE_LIMIT,
                forall|e: u16| code < e < d ==> #[trigger] key_debug_name(e) != key_debug_name(code),
            decreases KEY_CODE_LIMIT - d,
        {
            if chars_eq(self.names[d].as_slice(), raw.as_slice()) {
                assert(self.names@[d as int]@ == key_debug_name(d as u16));
                assert(key_debug_name(d as u16) == key_debug_name(code));
                return false;
            }
            assert(self.names@[d as int]@ == key_debug_name(d as u16));
            d = d + 1;
        }
        true
    }

    /// Converts a key name given as characters to its code.
    pub fn parse_key_chars(&self, cs: &[char]) -> (r: Option<u16>)
        requires
            self.wf(),
        ensures
            r == parse_key_spec(cs@),
    {
        let ghost name = cs@;
        let mut i: usize = 0;
        while i < 30
            invariant
                self.wf(),
                cs@ == name,
                i <= 30,
                forall|k: int| 0 <= k < i ==> self.macro_names@[k]@ != name,
            decreases 30 - i,
        {
            if chars_eq(self.macro_names[i].as_slice(), cs) {
                proof {
                    let idx = (i + 1) as nat;
                    assert(1 <= idx <= 30 && name == macro_key_name(idx));
                    let w = choose|w: nat| 1 <= w <= 30 && name == macro_key_name(w);
                    lemma_macro_name_injective(w, idx);
                }
                return Some(KEY_MACRO_BASE + i as u16);
            }
            i = i + 1;
        }
        proof {
            assert forall|idx: nat| 1 <= idx <= 30 implies name != macro_key_name(idx) by {
                assert(self.macro_names@[idx - 1]@ == macro_key_name(idx));
            }
        }
        let mut c: usize = KEY_CODE_LIMIT as usize;
        while c > 0
            invariant
                self.wf(),
                cs@ == name,
                c <= KEY_CODE_LIMIT,
                forall|idx: nat| 1 <= idx <= 30 ==> name != #[trigger] macro_key_name(idx),
                forall|d: u16| c <= d < KEY_CODE_LIMIT ==> #[trigger] key_debug_name(d) != name,
            decreases c,
        {
            if chars_eq(self.names[c - 1].as_slice(), cs) {
                proof {
                    let k = (c - 1) as u16;
                    assert(self.names@[k as int]@ == key_debug_name(k));
                    assert(key_debug_name(k) == name);
                    let w = choose|w: u16|
                        w < KEY_CODE_LIMIT && key_debug_name(w) == name && forall|d: u16|
                            w < d < KEY_CODE_LIMIT ==> #[trigger] key_debug_name(d) != name;
                    if w < k {
                        assert(key_debug_name(k) != name);
                    }
                    if w > k {
                        assert(key_debug_name(w) != name);
                    }
                }
                return Some((c - 1) as u16);
            }
            c = c - 1;
        }
        None
    }
}

proof fn lemma_dec_digits_injective(a: nat, b: nat)
    requires
        dec_digits(a) == dec_digits(b),
    ensures
        a == b,
    decreases a,
{
    if a >= 10 && b >= 10 {
        assert(dec_digits(a).drop_last() == dec_digits(a / 10));
        assert(dec_digits(b).drop_last() == dec_digits(b / 10));
        lemma_dec_digits_injective(a / 10, b / 10);
        assert(dec_digits(a).last() == crate::text::digit_char(a % 10));
        assert(dec_digits(b).last() == crate::text::digit_char(b % 10));
        crate::text::lemma_digit_char_injective(a % 10, b % 10);
    } else if a < 10 && b < 10 {
        assert(dec_digits(a)[0] == crate::text::digit_char(a));
        assert(dec_digits(b)[0] == crate::text::digit_char(b));
        crate::text::lemma_digit_char_injective(a, b);
    } else if a < 10 {
        crate::text::lemma_dec_digits_len(b / 10);
        assert(dec_digits(b).len() >= 2);
    } else {
        crate::text::lemma_dec_digits_len(a / 10);
        assert(dec_digits(a).len() >= 2);
    }
}

/// Different macro indices give different names.
pub proof fn lemma_macro_name_injective(a: nat, b: nat)
    requires
        macro_key_name(a) == macro_key_name(b),
    ensures
        a == b,
{
    let p = "KEY_MACRO"@;
    assert(macro_key_name(a).skip(p.len() as int) =~= dec_digits(a));
    assert(macro_key_name(b).skip(p.len() as int) =~= dec_digits(b));
    lemma_dec_digits_injective(a, b);
}

/// The name of `code` resolves back to it: either it is a macro key that
/// evdev leaves unnamed, or evdev's name for it is neither a macro name nor
/// the name of a later code.
pub open spec fn names_back(code: u16) -> bool {
    let raw = key_debug_name(code);
    ||| ("unknown key:"@.is_prefix_of(raw) && KEY_MACRO_BASE <= code <= KEY_MACRO_MAX)
    ||| (forall|i: nat| 1 <= i <= 30 ==> raw != #[trigger] macro_key_name(i)) && (forall|d: u16|
        code < d < KEY_CODE_LIMIT ==> #[trigger] key_debug_name(d) != raw)
}

/// A key code whose name passes `names_back` (which
/// `KeyTable::names_back_to` tests) is named and parsed back to itself.
pub proof fn law_key_name_round_trip(code: u16)
    requires
        code < KEY_CODE_LIMIT,
        names_back(code),
    ensures
        parse_key_spec(key_name_spec(code)) == Some(code),
{
    let raw = key_debug_name(code);
    if "unknown key:"@.is_prefix_of(raw) && KEY_MACRO_BASE <= code <= KEY_MACRO_MAX {
        let idx = (code - KEY_MACRO_BASE + 1) as nat;
        assert((KEY_MACRO_BASE + idx - 1) as u16 == code);
        law_macro_key_name_roundtrip(idx);
    } else {
        law_named_key_roundtrip(code);
    }
}

/// A macro key that evdev leaves unnamed is named `KEY_MACROn`, and that
/// name resolves back to its code.
pub proof fn law_macro_key_name_roundtrip(idx: nat)
    requires
        1 <= idx <= 30,
        "unknown key:"@.is_prefix_of(key_debug_name((KEY_MACRO_BASE + idx - 1) as u16)),
    ensures
        key_name_spec((KEY_MACRO_BASE + idx - 1) as u16) == macro_key_name(idx),
        parse_key_spec(macro_key_name(idx)) == Some((KEY_MACRO_BASE + idx - 1) as u16),
{
    let code = (KEY_MACRO_BASE + idx - 1) as u16;
    assert((code - KEY_MACRO_BASE + 1) as nat == idx);
    let n = macro_key_name(idx);
    assert(exists|i: nat| 1 <= i <= 30 && n == macro_key_name(i));
    let j = choose|i: nat| 1 <= i <= 30 && n == macro_key_name(i);
    lemma_macro_name_injective(j, idx);
}

/// A key that evdev names, with a name that no macro key has and that no
/// later code shares, is named by that name, which resolves back to it.
pub proof fn law_named_key_roundtrip(code: u16)
    requires
        code < KEY_CODE_LIMIT,
        !("unknown key:"@.is_prefix_of(key_debug_name(code)) && KEY_MACRO_BASE <= code <= KEY_MACRO_MAX),
        forall|i: nat| 1 <= i <= 30 ==> key_debug_name(code) != #[trigger] macro_key_name(i),
        forall|d: u16| code < d < KEY_CODE_LIMIT ==> #[trigger] key_debug_name(d) != key_debug_name(code),
    ensures
        key_name_spec(code) == key_debug_name(code),
        parse_key_spec(key_name_spec(code)) == Some(code),
{
    let n = key_debug_name(code);
    assert(exists|c: u16| c < KEY_CODE_LIMIT && #[trigger] key_debug_name(c) == n);
    let c = choose|c: u16|
        c < KEY_CODE_LIMIT && key_debug_name(c) == n && forall|d: u16|
            c < d < KEY_CODE_LIMIT ==> #[trigger] key_debug_name(d) != n;
    assert(c < KEY_CODE_LIMIT && key_debug_name(c) == n && forall|d: u16|
        c < d < KEY_CODE_LIMIT ==> #[trigger] key_debug_name(d) != n) by {
        assert(code < KEY_CODE_LIMIT && key_debug_name(code) == n && forall|d: u16|
            code < d < KEY_CODE_LIMIT ==> #[trigger] key_debug_name(d) != n);
    }
    if c < code {
        assert(key_debug_name(code) != n);
    }
    if c > code {
        assert(key_debug_name(c) != n);
    }
}

} // verus!
