//! Where settings and profiles are stored, how profile files are named, and
//! the order in which profiles are listed.
use vstd::prelude::*;
use crate::config::Profile;
use crate::text::{chars_of, extend_str, lower_digit_char, string_from_chars};

verus! {

// ── Paths ─────────────────────────────────────────────────────────────────────

/// `base` joined with a relative component (`Path::join`): a `'/'` goes
/// between them unless `base` is empty or already ends with one.
pub open spec fn join_path(base: Seq<char>, name: Seq<char>) -> Seq<char> {
    if base.len() == 0 {
        name
    } else if base.last() == '/' {
        base + name
    } else {
        base + seq!['/'] + name
    }
}

fn join(base: &str, name: &str) -> (r: String)
    ensures
        r@ == join_path(base@, name@),
{
    let b = chars_of(base);
    let mut out: Vec<char> = Vec::new();
    extend_str(&mut out, base);
    if b.len() > 0 && b[b.len() - 1] != '/' {
        out.push('/');
    }
    extend_str(&mut out, name);
    assert(out@ =~= join_path(base@, name@));
    string_from_chars(out.as_slice())
}

/// The configuration directory: `gameremap` in the user's configuration
/// directory, or in `.config` of the home directory when there is none.
pub open spec fn config_dir_spec(config_home: Option<Seq<char>>, home: Seq<char>) -> Seq<char> {
    let base = match config_home {
        Some(c) => c,
        None => join_path(home, ".config"@),
    };
    join_path(base, "gameremap"@)
}

/// The configuration directory from the user's configuration directory (if
/// known) and home directory.
pub fn config_dir(config_home: Option<&str>, home: &str) -> (r: String)
    ensures
        r@ == config_dir_spec(
            match config_home {
                Some(c) => Some(c@),
                None => None,
            },
            home@,
        ),
{
    match config_home {
        Some(c) => join(c, "gameremap"),
        None => {
            let base = join(home, ".config");
            join(base.as_str(), "gameremap")
        },
    }
}

/// The directory that holds one file per profile.
pub fn profiles_dir(config_dir: &str) -> (r: String)
    ensures
        r@ == join_path(config_dir@, "profiles"@),
{
    join(config_dir, "profiles")
}

/// The settings file.
pub fn settings_path(config_dir: &str) -> (r: String)
    ensures
        r@ == join_path(config_dir@, "settings.toml"@),
{
    join(config_dir, "settings.toml")
}

// ── Profile files ─────────────────────────────────────────────────────────────

/// 16 to the power `k`.
pub open spec fn pow16(k: nat) -> nat
    decreases k,
{
    if k == 0 {
        1
    } else {
        16 * pow16((k - 1) as nat)
    }
}

/// The 32 lower-case hex digits of an identifier, most significant first.
pub open spec fn hex32(id: u128) -> Seq<char> {
    Seq::new(32, |k: int| lower_digit_char(((id as nat / pow16((31 - k) as nat)) % 16) as nat))
}

/// The hyphenated form of a UUID: its hex digits in groups of 8, 4, 4, 4
/// and 12, separated by `'-'`.
pub open spec fn uuid_text(id: u128) -> Seq<char> {
    let h = hex32(id);
    h.subrange(0, 8) + seq!['-'] + h.subrange(8, 12) + seq!['-'] + h.subrange(12, 16) + seq!['-'] + h.subrange(16, 20)
        + seq!['-'] + h.subrange(20, 32)
}

proof fn lemma_pow16_pos(k: nat)
    ensures
        pow16(k) >= 1,
    decreases k,
{
    if k > 0 {
        lemma_pow16_pos((k - 1) as nat);
    }
}

/// Formats an identifier as a hyphenated UUID.
pub fn uuid_hyphenated(id: u128) -> (r: String)
    ensures
        r@ == uuid_text(id),
{
    let table = ['0', '1', '2', '3', '4', '5', '6', '7', '8', '9', 'a', 'b', 'c', 'd', 'e', 'f'];
    let mut digits: Vec<char> = Vec::new();
    let mut k: usize = 0;
    while k < 32
        invariant
            k <= 32,
            table@ == seq!['0', '1', '2', '3', '4', '5', '6', '7', '8', '9', 'a', 'b', 'c', 'd', 'e', 'f'],
            digits@ == hex32(id).take(k as int),
        decreases 32 - k,
    {
        let shift: u32 = (4 * (31 - k)) as u32;
        let nibble = ((id >> shift) & 0xF) as usize;
        proof {
            lemma_shift_is_div(id, (31 - k) as nat);
            assert(nibble == (id as nat / pow16((31 - k) as nat)) % 16) by {
                lemma_pow16_pos((31 - k) as nat);
                lemma_and_15(id >> shift);
            }
            assert(hex32(id).take(k + 1) =~= hex32(id).take(k as int).push(table@[nibble as int]));
        }
        digits.push(table[nibble]);
        k = k + 1;
    }
    let mut out: Vec<char> = Vec::new();
    push_range(&mut out, &digits, 0, 8);
    out.push('-');
    push_range(&mut out, &digits, 8, 12);
    out.push('-');
    push_range(&mut out, &digits, 12, 16);
    out.push('-');
    push_range(&mut out, &digits, 16, 20);
    out.push('-');
    push_range(&mut out, &digits, 20, 32);
    assert(out@ =~= uuid_text(id));
    string_from_chars(out.as_slice())
}

fn push_range(out: &mut Vec<char>, src: &Vec<char>, lo: usize, hi: usize)
    requires
        lo <= hi <= src@.len(),
    ensures
        final(out)@ == old(out)@ + src@.subrange(lo as int, hi as int),
{
    let mut k: usize = lo;
    while k < hi
        invariant
            lo <= k <= hi <= src@.len(),
            out@ == old(out)@ + src@.subrange(lo as int, k as int),
        decreases hi - k,
    {
        out.push(src[k]);
        proof {
            assert(src@.subrange(lo as int, k + 1) =~= src@.subrange(lo as int, k as int).push(src@[k as int]));
        }
        k = k + 1;
    }
}

proof fn lemma_and_15(x: u128)
    by (bit_vector)
    ensures
        (x & 0xF) == x % 16,
{
}

proof fn lemma_shift_is_div(id: u128, k: nat)
    requires
        k < 32,
    ensures
        (id >> (4 * k) as u32) as nat == id as nat / pow16(k),
    decreases k,
{
    if k == 0 {
        assert(id >> 0u32 == id) by (bit_vector);
        assert(pow16(0) == 1);
        assert(id as nat / 1 == id as nat);
        assert((4 * k) as u32 == 0u32);
    } else {
        let k1 = (k - 1) as nat;
        lemma_shift_is_div(id, k1);
        let t = (4 * k1) as u32;
        let s = (4 * k) as u32;
        let a = id >> t;
        assert(a as nat == id as nat / pow16(k1));
        assert(s == t + 4);
        assert(id >> s == (id >> t) >> 4u32) by (bit_vector)
            requires
                s == t + 4,
                t < 124,
        ;
        assert(a >> 4u32 == a / 16) by (bit_vector);
        lemma_pow16_pos(k1);
        vstd::arithmetic::div_mod::lemma_div_denominator(id as int, pow16(k1) as int, 16);
        assert(pow16(k) == 16 * pow16(k1));
        assert(pow16(k1) * 16 == 16 * pow16(k1)) by (nonlinear_arith);
        assert((id >> s) as nat == (a / 16) as nat);
        assert((a / 16) as nat == (id as nat / pow16(k1)) / 16);
        assert((id as int / pow16(k1) as int) / 16 == id as int / (pow16(k1) as int * 16));
        assert(pow16(k1) as int * 16 == pow16(k) as int);
    }
}

proof fn lemma_lower_digit_injective(a: nat, b: nat)
    requires
        a < 16,
        b < 16,
        lower_digit_char(a) == lower_digit_char(b),
    ensures
        a == b,
{
    let t = seq!['0', '1', '2', '3', '4', '5', '6', '7', '8', '9', 'a', 'b', 'c', 'd', 'e', 'f'];
    assert(forall|i: int, j: int| 0 <= i < 16 && 0 <= j < 16 && i != j ==> t[i] != t[j]);
}

/// One hex digit more: the quotient by `16^j` is sixteen times the quotient
/// by `16^(j+1)` plus digit `j`.
proof fn lemma_quotient_step(x: nat, j: nat)
    ensures
        x / pow16(j) == (x / pow16(j + 1)) * 16 + (x / pow16(j)) % 16,
{
    lemma_pow16_pos(j);
    let q = x / pow16(j);
    vstd::arithmetic::div_mod::lemma_div_denominator(x as int, pow16(j) as int, 16);
    assert(pow16(j + 1) == 16 * pow16(j));
    assert(pow16(j) as int * 16 == 16 * pow16(j) as int) by (nonlinear_arith);
    vstd::arithmetic::div_mod::lemma_fundamental_div_mod(q as int, 16);
    assert(q == 16 * (q / 16) + q % 16);
    assert(16 * (q / 16) == (q / 16) * 16) by (nonlinear_arith);
}

proof fn lemma_pow16_32()
    ensures
        pow16(32) == 0x1_0000_0000_0000_0000_0000_0000_0000_0000,
{
    reveal_with_fuel(pow16, 33);
}

/// Equal digits from position `j` up give equal quotients by `16^j`.
proof fn lemma_equal_digits_from(a: u128, b: u128, j: nat)
    requires
        j <= 32,
        forall|e: nat| e < 32 ==> #[trigger] ((a as nat / pow16(e)) % 16) == (b as nat / pow16(e)) % 16,
    ensures
        a as nat / pow16(j) == b as nat / pow16(j),
    decreases 32 - j,
{
    if j == 32 {
        lemma_pow16_32();
        vstd::arithmetic::div_mod::lemma_basic_div(a as int, pow16(32) as int);
        vstd::arithmetic::div_mod::lemma_basic_div(b as int, pow16(32) as int);
    } else {
        lemma_equal_digits_from(a, b, j + 1);
        lemma_quotient_step(a as nat, j);
        lemma_quotient_step(b as nat, j);
        assert((a as nat / pow16(j)) % 16 == (b as nat / pow16(j)) % 16);
    }
}

/// The hex digits of an identifier, read back from its hyphenated form.
proof fn lemma_uuid_text_digits(id: u128)
    ensures
        uuid_text(id).subrange(0, 8) + uuid_text(id).subrange(9, 13) + uuid_text(id).subrange(14, 18)
            + uuid_text(id).subrange(19, 23) + uuid_text(id).subrange(24, 36) == hex32(id),
{
    let h = hex32(id);
    let u = uuid_text(id);
    assert(u.len() == 36);
    assert(u.subrange(0, 8) =~= h.subrange(0, 8));
    assert(u.subrange(9, 13) =~= h.subrange(8, 12));
    assert(u.subrange(14, 18) =~= h.subrange(12, 16));
    assert(u.subrange(19, 23) =~= h.subrange(16, 20));
    assert(u.subrange(24, 36) =~= h.subrange(20, 32));
    assert(h.subrange(0, 8) + h.subrange(8, 12) + h.subrange(12, 16) + h.subrange(16, 20) + h.subrange(20, 32) =~= h);
}

/// A profile's file is named by its identifier alone, so renaming a profile
/// keeps its file, and two profiles with different identifiers never share
/// a file.
pub proof fn law_profile_files_distinct(a: u128, b: u128)
    requires
        a != b,
    ensures
        uuid_text(a) + ".toml"@ != uuid_text(b) + ".toml"@,
{
    if uuid_text(a) + ".toml"@ == uuid_text(b) + ".toml"@ {
        let ta = uuid_text(a) + ".toml"@;
        assert(ta.subrange(0, 36) =~= uuid_text(a));
        assert((uuid_text(b) + ".toml"@).subrange(0, 36) =~= uuid_text(b));
        assert(uuid_text(a) == uuid_text(b));
        lemma_uuid_text_digits(a);
        lemma_uuid_text_digits(b);
        assert(hex32(a) == hex32(b));
        assert forall|e: nat| e < 32 implies #[trigger] ((a as nat / pow16(e)) % 16) == (b as nat / pow16(e)) % 16 by {
            let k = 31 - e;
            assert(hex32(a)[k] == hex32(b)[k]);
            lemma_lower_digit_injective((a as nat / pow16(e)) % 16, (b as nat / pow16(e)) % 16);
        }
        lemma_equal_digits_from(a, b, 0);
        assert(pow16(0) == 1);
        assert(a as nat / 1 == a as nat);
        assert(b as nat / 1 == b as nat);
    }
}

/// The file of a profile in the profiles directory: its identifier and
/// `.toml`, so that renaming leaves no orphan file.
pub fn profile_file_name(id: u128) -> (r: String)
    ensures
        r@ == uuid_text(id) + ".toml"@,
{
    let u = uuid_hyphenated(id);
    let mut out: Vec<char> = Vec::new();
    extend_str(&mut out, u.as_str());
    extend_str(&mut out, ".toml");
    string_from_chars(out.as_slice())
}

/// A directory entry is a profile file when its extension (what follows its
/// last dot, a leading dot not counting) is `toml`.
pub open spec fn is_profile_file_spec(name: Seq<char>) -> bool {
    name.len() >= 6 && name.subrange(name.len() - 5, name.len() as int) == ".toml"@
}

/// Whether a directory entry is a profile file.
pub fn is_profile_file(name: &str) -> (r: bool)
    ensures
        r == is_profile_file_spec(name@),
{
    let cs = chars_of(name);
    let suffix = chars_of(".toml");
    proof {
        reveal_strlit(".toml");
    }
    if cs.len() < 6 {
        return false;
    }
    let n = cs.len();
    let mut k: usize = 0;
    while k < 5
        invariant
            k <= 5,
            n == cs@.len(),
            n >= 6,
            cs@ == name@,
            suffix@ == ".toml"@,
            suffix@.len() == 5,
            forall|j: int| 0 <= j < k ==> cs@[n - 5 + j] == suffix@[j],
        decreases 5 - k,
    {
        if cs[n - 5 + k] != suffix[k] {
            assert(cs@.subrange(n - 5, n as int)[k as int] != ".toml"@[k as int]);
            return false;
        }
        k = k + 1;
    }
    assert(cs@.subrange(n - 5, n as int) =~= ".toml"@);
    true
}

// ── Profiles in name order ────────────────────────────────────────────────────

/// `a` comes no later than `b` in the order of their characters (the order
/// of `String` comparison, UTF-8 preserving code point order).
pub open spec fn name_le(a: Seq<char>, b: Seq<char>) -> bool
    decreases a.len(),
{
    if a.len() == 0 {
        true
    } else if b.len() == 0 {
        false
    } else if (a[0] as u32) != (b[0] as u32) {
        (a[0] as u32) < (b[0] as u32)
    } else {
        name_le(a.drop_first(), b.drop_first())
    }
}

proof fn lemma_name_le_total(a: Seq<char>, b: Seq<char>)
    ensures
        name_le(a, b) || name_le(b, a),
    decreases a.len(),
{
    if a.len() > 0 && b.len() > 0 && (a[0] as u32) == (b[0] as u32) {
        lemma_name_le_total(a.drop_first(), b.drop_first());
    }
}

proof fn lemma_name_le_trans(a: Seq<char>, b: Seq<char>, c: Seq<char>)
    requires
        name_le(a, b),
        name_le(b, c),
    ensures
        name_le(a, c),
    decreases a.len(),
{
    if a.len() > 0 && b.len() > 0 && c.len() > 0 && (a[0] as u32) == (b[0] as u32) && (b[0] as u32) == (c[0] as u32) {
        lemma_name_le_trans(a.drop_first(), b.drop_first(), c.drop_first());
    }
}

fn name_le_exec(a: &[char], b: &[char]) -> (r: bool)
    ensures
        r == name_le(a@, b@),
{
    let mut i: usize = 0;
    assert(a@.skip(0) =~= a@);
    assert(b@.skip(0) =~= b@);
    while i < a.len() && i < b.len() && (a[i] as u32) == (b[i] as u32)
        invariant
            i <= a@.len(),
            i <= b@.len(),
            name_le(a@, b@) == name_le(a@.skip(i as int), b@.skip(i as int)),
        decreases a@.len() - i,
    {
        proof {
            assert(a@.skip(i as int).drop_first() =~= a@.skip(i + 1));
            assert(b@.skip(i as int).drop_first() =~= b@.skip(i + 1));
        }
        i = i + 1;
    }
    if i == a.len() {
        true
    } else if i == b.len() {
        false
    } else {
        assert(a@.skip(i as int)[0] == a@[i as int]);
        assert(b@.skip(i as int)[0] == b@[i as int]);
        (a[i] as u32) < (b[i] as u32)
    }
}

/// The profiles are in name order.
pub open spec fn sorted_by_name(ps: Seq<Profile>) -> bool {
    forall|i: int, j: int| 0 <= i < j < ps.len() ==> name_le(#[trigger] ps[i].name@, #[trigger] ps[j].name@)
}

/// The profiles named `n`, in order.
pub open spec fn named(s: Seq<Profile>, n: Seq<char>) -> Seq<Profile>
    decreases s.len(),
{
    if s.len() == 0 {
        seq![]
    } else if s.last().name@ == n {
        named(s.drop_last(), n).push(s.last())
    } else {
        named(s.drop_last(), n)
    }
}

proof fn lemma_name_le_refl(a: Seq<char>)
    ensures
        name_le(a, a),
    decreases a.len(),
{
    if a.len() > 0 {
        lemma_name_le_refl(a.drop_first());
    }
}

/// Inserting a profile after every other profile of its name adds it last
/// among them, and leaves the other names' lists alone.
proof fn lemma_named_insert(s: Seq<Profile>, k: int, x: Profile, n: Seq<char>)
    requires
        0 <= k <= s.len(),
        x.name@ == n ==> forall|j: int| k <= j < s.len() ==> #[trigger] s[j].name@ != n,
    ensures
        named(s.insert(k, x), n) == if x.name@ == n {
            named(s, n).push(x)
        } else {
            named(s, n)
        },
    decreases s.len(),
{
    if k == s.len() {
        assert(s.insert(k, x) =~= s.push(x));
        assert(s.push(x).drop_last() =~= s);
    } else {
        let t = s.insert(k, x);
        assert(t.drop_last() =~= s.drop_last().insert(k, x));
        assert(t.last() == s.last());
        lemma_named_insert(s.drop_last(), k, x, n);
    }
}

proof fn lemma_insert_multiset<A>(s: Seq<A>, k: int, x: A)
    requires
        0 <= k <= s.len(),
    ensures
        s.insert(k, x).to_multiset() == s.to_multiset().insert(x),
{
    let a = s.take(k);
    let b = s.skip(k);
    assert(s =~= a + b);
    assert(s.insert(k, x) =~= a.push(x) + b);
    vstd::seq_lib::lemma_multiset_commutative(a.push(x), b);
    vstd::seq_lib::lemma_multiset_commutative(a, b);
    a.to_multiset_ensures();
    assert(s.insert(k, x).to_multiset() =~= s.to_multiset().insert(x));
}

/// Orders profiles by name; profiles with the same name keep their order.
pub fn sort_by_name(ps: Vec<Profile>) -> (r: Vec<Profile>)
    ensures
        sorted_by_name(r@),
        r@.to_multiset() == ps@.to_multiset(),
        forall|n: Seq<char>| #[trigger] named(r@, n) == named(ps@, n),
{
    let ghost input = ps@;
    let mut rest = ps;
    let mut r: Vec<Profile> = Vec::new();
    let n = rest.len();
    proof {
        assert(input.take(0) =~= Seq::<Profile>::empty());
        Seq::<Profile>::empty().to_multiset_ensures();
        assert(r@ =~= Seq::<Profile>::empty());
    }
    let mut i: usize = 0;
    while i < n
        invariant
            n == input.len(),
            i <= n,
            rest@ == input.skip(i as int),
            sorted_by_name(r@),
            r@.to_multiset() == input.take(i as int).to_multiset(),
            forall|m: Seq<char>| #[trigger] named(r@, m) == named(input.take(i as int), m),
        decreases n - i,
    {
        let p = rest.remove(0);
        proof {
            assert(rest@ =~= input.skip(i + 1));
            assert(p == input[i as int]);
        }
        let pn = chars_of(p.name.as_str());
        let mut k: usize = 0;
        while k < r.len() && name_le_exec(chars_of(r[k].name.as_str()).as_slice(), pn.as_slice())
            invariant
                k <= r@.len(),
                pn@ == p.name@,
                forall|j: int| 0 <= j < k ==> name_le(#[trigger] r@[j].name@, p.name@),
            decreases r@.len() - k,
        {
            k = k + 1;
        }
        let ghost before = r@;
        proof {
            assert forall|j: int| k <= j < r@.len() implies !name_le(#[trigger] r@[j].name@, p.name@) by {
                if k < r@.len() {
                    assert(!name_le(r@[k as int].name@, p.name@));
                    if j > k {
                        assert(name_le(r@[k as int].name@, r@[j].name@));
                        if name_le(r@[j].name@, p.name@) {
                            lemma_name_le_trans(r@[k as int].name@, r@[j].name@, p.name@);
                        }
                    }
                }
            }
        }
        r.insert(k, p);
        proof {
            assert forall|m: Seq<char>| #[trigger] named(r@, m) == named(input.take(i + 1), m) by {
                if p.name@ == m {
                    assert forall|j: int| k <= j < before.len() implies #[trigger] before[j].name@ != m by {
                        lemma_name_le_refl(m);
                    }
                }
                lemma_named_insert(before, k as int, p, m);
                let t = input.take(i + 1);
                assert(t.drop_last() =~= input.take(i as int));
                assert(t.last() == p);
            }
            lemma_insert_multiset(before, k as int, p);
            assert(input.take(i + 1) =~= input.take(i as int).push(input[i as int]));
            input.take(i as int).to_multiset_ensures();
            assert forall|a: int, b: int| 0 <= a < b < r@.len() implies name_le(
                #[trigger] r@[a].name@,
                #[trigger] r@[b].name@,
            ) by {
                if b < k {
                    assert(r@[a] == before[a] && r@[b] == before[b]);
                } else if b == k {
                    assert(r@[a] == before[a]);
                } else if a == k {
                    assert(r@[b] == before[b - 1]);
                    assert(!name_le(before[b - 1].name@, p.name@));
                    lemma_name_le_total(before[b - 1].name@, p.name@);
                } else if a < k {
                    assert(r@[a] == before[a] && r@[b] == before[b - 1]);
                } else {
                    assert(r@[a] == before[a - 1] && r@[b] == before[b - 1]);
                }
            }
        }
        i = i + 1;
    }
    proof {
        assert(input.take(n as int) =~= input);
    }
    r
}

} // verus!
