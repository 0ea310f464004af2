//! hidraw devices: what sysfs says about them, and the reports they send.
use vstd::prelude::*;
use crate::text::{
    after_last, after_last_char, chars_of, extend_chars, extend_str, find_line_value, first_line_value, hex_byte,
    lines_of, parse_unsigned, parse_unsigned_spec, push_hex_byte, split_chars, split_on, string_from_chars,
    subslice,
};
use std::time::Duration;

verus! {

/// A hidraw node and the device behind it.
#[derive(Debug, Clone)]
pub struct HidRawDevice {
    pub hidraw_path: String,
    pub name: String,
    pub vid: u32,
    pub pid: u32,
    /// USB interface number (0, 1, 2, …)
    pub interface: u8,
}

impl View for HidRawDevice {
    /// (path, name, vendor id, product id, interface)
    type V = (Seq<char>, Seq<char>, u32, u32, u8);

    open spec fn view(&self) -> (Seq<char>, Seq<char>, u32, u32, u8) {
        (self.hidraw_path@, self.name@, self.vid, self.pid, self.interface)
    }
}

impl HidRawDevice {
    /// A copy of this device record.
    pub fn duplicate(&self) -> (r: Self)
        ensures
            r@ == self@,
    {
        HidRawDevice {
            hidraw_path: self.hidraw_path.clone(),
            name: self.name.clone(),
            vid: self.vid,
            pid: self.pid,
            interface: self.interface,
        }
    }
}

/// One report read from a hidraw node.
#[derive(Debug)]
pub struct HidRawReport {
    pub elapsed: Duration,
    pub device: HidRawDevice,
    pub data: Vec<u8>,
    /// Bitmask: true at index i if data[i] differs from the previous report on this interface.
    /// Empty if this is the first report seen on this interface.
    pub changed: Vec<bool>,
}

/// The bytes as upper-case hex pairs separated by single spaces.
pub open spec fn hex_spec(data: Seq<u8>) -> Seq<char>
    decreases data.len(),
{
    if data.len() == 0 {
        seq![]
    } else if data.len() == 1 {
        hex_byte(data[0])
    } else {
        hex_spec(data.drop_last()) + seq![' '] + hex_byte(data.last())
    }
}

/// Formats bytes as `"0A FF 03"`.
pub fn hex_bytes(data: &[u8]) -> (r: String)
    ensures
        r@ == hex_spec(data@),
{
    let mut out: Vec<char> = Vec::new();
    let mut i: usize = 0;
    while i < data.len()
        invariant
            i <= data@.len(),
            out@ == hex_spec(data@.take(i as int)),
        decreases data@.len() - i,
    {
        if i > 0 {
            out.push(' ');
        }
        push_hex_byte(&mut out, data[i]);
        proof {
            assert(data@.take(i + 1).drop_last() =~= data@.take(i as int));
            if i == 0 {
                assert(out@ =~= hex_spec(data@.take(1)));
            } else {
                assert(out@ =~= hex_spec(data@.take(i + 1)));
            }
        }
        i = i + 1;
    }
    proof {
        assert(data@.take(data@.len() as int) =~= data@);
    }
    string_from_chars(out.as_slice())
}

impl HidRawReport {
    /// The report's bytes as upper-case hex pairs separated by spaces.
    pub fn hex(&self) -> (r: String)
        ensures
            r@ == hex_spec(self.data@),
    {
        hex_bytes(self.data.as_slice())
    }
}

/// Which bytes differ from the previous report: nothing for the first
/// report (no previous one); otherwise one mark per byte, where a byte
/// beyond the previous report's length counts as changed.
pub open spec fn changed_spec(prev: Seq<u8>, data: Seq<u8>) -> Seq<bool> {
    if prev.len() == 0 {
        seq![]
    } else {
        Seq::new(data.len(), |i: int| i >= prev.len() || prev[i] != data[i])
    }
}

/// Marks the bytes of `data` that differ from `prev`.
pub fn changed_mask(prev: &[u8], data: &[u8]) -> (r: Vec<bool>)
    ensures
        r@ == changed_spec(prev@, data@),
{
    let mut r: Vec<bool> = Vec::new();
    if prev.len() == 0 {
        assert(r@ =~= changed_spec(prev@, data@));
        return r;
    }
    let mut i: usize = 0;
    while i < data.len()
        invariant
            i <= data@.len(),
            prev@.len() > 0,
            r@ == changed_spec(prev@, data@).take(i as int),
        decreases data@.len() - i,
    {
        let c = if i >= prev.len() {
            true
        } else {
            prev[i] != data[i]
        };
        r.push(c);
        proof {
            assert(changed_spec(prev@, data@).take(i + 1) =~= changed_spec(prev@, data@).take(i as int).push(c));
        }
        i = i + 1;
    }
    proof {
        assert(changed_spec(prev@, data@).take(data@.len() as int) =~= changed_spec(prev@, data@));
    }
    r
}

// ── Parsing sysfs uevent files ────────────────────────────────────────────────

/// The interface number in a `HID_PHYS` value such as
/// `usb-0000:00:14.0-1/input1`: the decimal after `input` in the last
/// `/`-separated piece, or 0xFF when there is none.
pub open spec fn interface_spec(ls: Seq<Seq<char>>) -> u8 {
    match first_line_value(ls, "HID_PHYS="@) {
        None => 0xFF,
        Some(ph) => {
            let last = after_last(ph, '/');
            if "input"@.is_prefix_of(last) {
                match parse_unsigned_spec(last.skip("input"@.len() as int), 10, 255) {
                    Some(n) => n as u8,
                    None => 0xFF,
                }
            } else {
                0xFF
            }
        },
    }
}

/// The device that a hidraw node named `node` with this uevent text denotes:
/// `HID_ID=bus:vid:pid` (hex) must be present with three fields; the name is
/// `HID_NAME` or `Unknown`; the path is `/dev/` and the node name.
pub open spec fn parse_uevent_spec(node: Seq<char>, uevent: Seq<char>) -> Option<(Seq<char>, Seq<char>, u32, u32, u8)> {
    let ls = lines_of(uevent);
    match first_line_value(ls, "HID_ID="@) {
        None => None,
        Some(id) => {
            let parts = split_on(id, ':');
            if parts.len() != 3 {
                None
            } else {
                match (parse_unsigned_spec(parts[1], 16, 0xFFFF_FFFF), parse_unsigned_spec(parts[2], 16, 0xFFFF_FFFF)) {
                    (Some(v), Some(p)) => Some((
                        "/dev/"@ + node,
                        match first_line_value(ls, "HID_NAME="@) {
                            Some(n) => n,
                            None => "Unknown"@,
                        },
                        v as u32,
                        p as u32,
                        interface_spec(ls),
                    )),
                    _ => None,
                }
            }
        },
    }
}

fn parse_interface(ue: &[char]) -> (r: u8)
    ensures
        r == interface_spec(lines_of(ue@)),
{
    let prefix = chars_of("HID_PHYS=");
    match find_line_value(ue, prefix.as_slice()) {
        None => 0xFF,
        Some(ph) => {
            let last = after_last_char(ph.as_slice(), '/');
            let input = chars_of("input");
            if crate::text::starts_with(last.as_slice(), input.as_slice()) {
                let digits = subslice(last.as_slice(), input.len(), last.len());
                assert(digits@ =~= last@.skip("input"@.len() as int));
                match parse_unsigned(digits.as_slice(), 10, 255) {
                    Some(n) => n as u8,
                    None => 0xFF,
                }
            } else {
                0xFF
            }
        },
    }
}

/// Reads a device record from the uevent text of the hidraw node `node`.
pub fn parse_uevent(node: &str, uevent: &str) -> (r: Option<HidRawDevice>)
    ensures
        r matches Some(d) ==> parse_uevent_spec(node@, uevent@) == Some(d@),
        r is None ==> parse_uevent_spec(node@, uevent@) is None,
{
    let ue = chars_of(uevent);
    let id_prefix = chars_of("HID_ID=");
    let id = match find_line_value(ue.as_slice(), id_prefix.as_slice()) {
        None => {
            return None;
        },
        Some(id) => id,
    };
    let parts = split_chars(id.as_slice(), ':');
    if parts.len() != 3 {
        return None;
    }
    let vid = match parse_unsigned(parts[1].as_slice(), 16, 0xFFFF_FFFF) {
        None => {
            return None;
        },
        Some(v) => v,
    };
    let pid = match parse_unsigned(parts[2].as_slice(), 16, 0xFFFF_FFFF) {
        None => {
            return None;
        },
        Some(p) => p,
    };
    let interface = parse_interface(ue.as_slice());
    let name_prefix = chars_of("HID_NAME=");
    let name = match find_line_value(ue.as_slice(), name_prefix.as_slice()) {
        Some(n) => string_from_chars(n.as_slice()),
        None => String::from_str("Unknown"),
    };
    let mut path: Vec<char> = Vec::new();
    extend_str(&mut path, "/dev/");
    extend_str(&mut path, node);
    let hidraw_path = string_from_chars(path.as_slice());
    Some(HidRawDevice { hidraw_path, name, vid, pid, interface })
}

// ── Listing and sorting ───────────────────────────────────────────────────────

/// Devices are listed by vendor id, then product id, then interface.
pub open spec fn key_le(a: (Seq<char>, Seq<char>, u32, u32, u8), b: (Seq<char>, Seq<char>, u32, u32, u8)) -> bool {
    a.2 < b.2 || (a.2 == b.2 && (a.3 < b.3 || (a.3 == b.3 && a.4 <= b.4)))
}

/// The views of a device list.
pub open spec fn devs_view(v: Seq<HidRawDevice>) -> Seq<(Seq<char>, Seq<char>, u32, u32, u8)> {
    v.map_values(|d: HidRawDevice| d@)
}

/// The list is ordered by (vendor id, product id, interface).
pub open spec fn sorted_by_key(s: Seq<(Seq<char>, Seq<char>, u32, u32, u8)>) -> bool {
    forall|i: int, j: int| 0 <= i < j < s.len() ==> key_le(#[trigger] s[i], #[trigger] s[j])
}

fn dev_key_le(a: &HidRawDevice, b: &HidRawDevice) -> (r: bool)
    ensures
        r == key_le(a@, b@),
{
    a.vid < b.vid || (a.vid == b.vid && (a.pid < b.pid || (a.pid == b.pid && a.interface <= b.interface)))
}

/// The (vendor id, product id, interface) a device is listed by.
pub open spec fn dev_key(d: (Seq<char>, Seq<char>, u32, u32, u8)) -> (u32, u32, u8) {
    (d.2, d.3, d.4)
}

/// The devices with this listing key, in order.
pub open spec fn with_key(s: Seq<(Seq<char>, Seq<char>, u32, u32, u8)>, key: (u32, u32, u8)) -> Seq<(Seq<char>, Seq<char>, u32, u32, u8)>
    decreases s.len(),
{
    if s.len() == 0 {
        seq![]
    } else if dev_key(s.last()) == key {
        with_key(s.drop_last(), key).push(s.last())
    } else {
        with_key(s.drop_last(), key)
    }
}

/// Inserting a device after every other device with its key adds it last
/// among them, and leaves the other keys' lists alone.
proof fn lemma_with_key_insert(
    s: Seq<(Seq<char>, Seq<char>, u32, u32, u8)>,
    k: int,
    x: (Seq<char>, Seq<char>, u32, u32, u8),
    key: (u32, u32, u8),
)
    requires
        0 <= k <= s.len(),
        dev_key(x) == key ==> forall|j: int| k <= j < s.len() ==> dev_key(#[trigger] s[j]) != key,
    ensures
        with_key(s.insert(k, x), key) == if dev_key(x) == key {
            with_key(s, key).push(x)
        } else {
            with_key(s, key)
        },
    decreases s.len(),
{
    if k == s.len() {
        assert(s.insert(k, x) =~= s.push(x));
        assert(s.push(x).drop_last() =~= s);
    } else {
        let t = s.insert(k, x);
        assert(t.drop_last() =~= s.drop_last().insert(k, x));
        assert(t.last() == s.last());
        lemma_with_key_insert(s.drop_last(), k, x, key);
    }
}

proof fn lemma_insert_multiset<A>(s: Seq<A>, k: int, x: A)
    requires
        0 <= k <= s.len(),
    ensures
        s.insert(k, x).to_multiset() == s.to_multiset().insert(x),
{
    let a = s.take(k);
    let b = s.skip(k);
    assert(s =~= a + b);
    assert(s.insert(k, x) =~= a.push(x) + b);
    vstd::seq_lib::lemma_multiset_commutative(a.push(x), b);
    vstd::seq_lib::lemma_multiset_commutative(a, b);
    a.to_multiset_ensures();
    assert(s.insert(k, x).to_multiset() =~= s.to_multiset().insert(x));
}

/// Where a device goes in a list in listing order: after every device
/// listed no later than it.
pub open spec fn insert_pos(s: Seq<(Seq<char>, Seq<char>, u32, u32, u8)>, x: (Seq<char>, Seq<char>, u32, u32, u8)) -> int
    decreases s.len(),
{
    if s.len() == 0 {
        0
    } else if !key_le(s[0], x) {
        0
    } else {
        1 + insert_pos(s.drop_first(), x)
    }
}

/// The devices in listing order (vendor id, product id, interface), those
/// with the same key in the order given.
pub open spec fn sorted_list(s: Seq<(Seq<char>, Seq<char>, u32, u32, u8)>) -> Seq<(Seq<char>, Seq<char>, u32, u32, u8)>
    decreases s.len(),
{
    if s.len() == 0 {
        seq![]
    } else {
        let t = sorted_list(s.drop_last());
        t.insert(insert_pos(t, s.last()), s.last())
    }
}

proof fn lemma_insert_pos_is(s: Seq<(Seq<char>, Seq<char>, u32, u32, u8)>, x: (Seq<char>, Seq<char>, u32, u32, u8), k: int)
    requires
        0 <= k <= s.len(),
        forall|j: int| 0 <= j < k ==> key_le(#[trigger] s[j], x),
        k < s.len() ==> !key_le(s[k], x),
    ensures
        insert_pos(s, x) == k,
    decreases k,
{
    if k > 0 {
        assert(key_le(s[0], x));
        assert forall|j: int| 0 <= j < k - 1 implies key_le(#[trigger] s.drop_first()[j], x) by {
            assert(s.drop_first()[j] == s[j + 1]);
        }
        if k < s.len() {
            assert(s.drop_first()[k - 1] == s[k]);
        }
        lemma_insert_pos_is(s.drop_first(), x, k - 1);
    }
}

/// The devices of one vendor, in order.
pub open spec fn of_vendor(s: Seq<(Seq<char>, Seq<char>, u32, u32, u8)>, v: u32) -> Seq<(Seq<char>, Seq<char>, u32, u32, u8)>
    decreases s.len(),
{
    if s.len() == 0 {
        seq![]
    } else if s[0].2 == v {
        seq![s[0]] + of_vendor(s.drop_first(), v)
    } else {
        of_vendor(s.drop_first(), v)
    }
}

proof fn lemma_of_vendor_push(s: Seq<(Seq<char>, Seq<char>, u32, u32, u8)>, x: (Seq<char>, Seq<char>, u32, u32, u8), v: u32)
    ensures
        of_vendor(s.push(x), v) == if x.2 == v {
            of_vendor(s, v).push(x)
        } else {
            of_vendor(s, v)
        },
    decreases s.len(),
{
    if s.len() == 0 {
        assert(s.push(x).drop_first() =~= s);
        assert(seq![x] + Seq::<(Seq<char>, Seq<char>, u32, u32, u8)>::empty() =~= seq![x]);
    } else {
        assert(s.push(x).drop_first() =~= s.drop_first().push(x));
        assert(s.push(x)[0] == s[0]);
        lemma_of_vendor_push(s.drop_first(), x, v);
        if s[0].2 == v {
            if x.2 == v {
                assert(seq![s[0]] + of_vendor(s.drop_first(), v).push(x) =~= (seq![s[0]] + of_vendor(s.drop_first(), v)).push(x));
            }
        }
    }
}

proof fn lemma_of_vendor_in(s: Seq<(Seq<char>, Seq<char>, u32, u32, u8)>, v: u32, i: int)
    requires
        0 <= i < of_vendor(s, v).len(),
    ensures
        exists|j: int| 0 <= j < s.len() && s[j] == #[trigger] of_vendor(s, v)[i],
    decreases s.len(),
{
    if s.len() > 0 {
        let r = of_vendor(s.drop_first(), v);
        if s[0].2 == v {
            if i == 0 {
                assert(s[0] == of_vendor(s, v)[0]);
            } else {
                assert(of_vendor(s, v)[i] == r[i - 1]);
                lemma_of_vendor_in(s.drop_first(), v, i - 1);
                let j = choose|j: int| 0 <= j < s.drop_first().len() && s.drop_first()[j] == r[i - 1];
                assert(s[j + 1] == of_vendor(s, v)[i]);
            }
        } else {
            lemma_of_vendor_in(s.drop_first(), v, i);
            let j = choose|j: int| 0 <= j < s.drop_first().len() && s.drop_first()[j] == r[i];
            assert(s[j + 1] == of_vendor(s, v)[i]);
        }
    }
}

proof fn lemma_insert_pos_facts(t: Seq<(Seq<char>, Seq<char>, u32, u32, u8)>, x: (Seq<char>, Seq<char>, u32, u32, u8))
    ensures
        0 <= insert_pos(t, x) <= t.len(),
        forall|j: int| 0 <= j < insert_pos(t, x) ==> key_le(#[trigger] t[j], x),
        insert_pos(t, x) < t.len() ==> !key_le(t[insert_pos(t, x)], x),
    decreases t.len(),
{
    if t.len() > 0 && key_le(t[0], x) {
        lemma_insert_pos_facts(t.drop_first(), x);
        assert forall|j: int| 0 <= j < insert_pos(t, x) implies key_le(#[trigger] t[j], x) by {
            if j > 0 {
                assert(t[j] == t.drop_first()[j - 1]);
            }
        }
        if insert_pos(t, x) < t.len() {
            assert(t[insert_pos(t, x)] == t.drop_first()[insert_pos(t, x) - 1]);
        }
    }
}

/// A list in listing order stays in it when a device is put at its place.
proof fn lemma_sorted_insert(t: Seq<(Seq<char>, Seq<char>, u32, u32, u8)>, x: (Seq<char>, Seq<char>, u32, u32, u8))
    requires
        sorted_by_key(t),
    ensures
        sorted_by_key(t.insert(insert_pos(t, x), x)),
{
    lemma_insert_pos_facts(t, x);
    let p = insert_pos(t, x);
    let u = t.insert(p, x);
    assert forall|j: int| p <= j < t.len() implies !key_le(#[trigger] t[j], x) by {
        if j > p {
            assert(key_le(t[p], t[j]));
        }
    }
    assert forall|a: int, b: int| 0 <= a < b < u.len() implies key_le(#[trigger] u[a], #[trigger] u[b]) by {
        if b < p {
            assert(u[a] == t[a] && u[b] == t[b]);
        } else if b == p {
            assert(u[a] == t[a]);
        } else if a == p {
            assert(u[b] == t[b - 1]);
            assert(!key_le(t[b - 1], x));
        } else if a < p {
            assert(u[a] == t[a] && u[b] == t[b - 1]);
        } else {
            assert(u[a] == t[a - 1] && u[b] == t[b - 1]);
        }
    }
}

proof fn lemma_sorted_list_sorted(s: Seq<(Seq<char>, Seq<char>, u32, u32, u8)>)
    ensures
        sorted_by_key(sorted_list(s)),
    decreases s.len(),
{
    if s.len() > 0 {
        lemma_sorted_list_sorted(s.drop_last());
        lemma_sorted_insert(sorted_list(s.drop_last()), s.last());
    }
}

/// Keeping one vendor's devices after putting a device of that vendor in
/// place is putting it in place among that vendor's devices.
proof fn lemma_of_vendor_insert(t: Seq<(Seq<char>, Seq<char>, u32, u32, u8)>, x: (Seq<char>, Seq<char>, u32, u32, u8))
    requires
        sorted_by_key(t),
    ensures
        of_vendor(t.insert(insert_pos(t, x), x), x.2) == of_vendor(t, x.2).insert(insert_pos(of_vendor(t, x.2), x), x),
    decreases t.len(),
{
    let v = x.2;
    if t.len() == 0 {
        assert(t.insert(0, x) =~= seq![x]);
        assert(seq![x].drop_first() =~= Seq::<(Seq<char>, Seq<char>, u32, u32, u8)>::empty());
        assert(seq![x] + Seq::<(Seq<char>, Seq<char>, u32, u32, u8)>::empty() =~= seq![x]);
        assert(Seq::<(Seq<char>, Seq<char>, u32, u32, u8)>::empty().insert(0, x) =~= seq![x]);
        let sx = seq![x];
        assert(sx[0] == x);
        assert(of_vendor(sx, v) == seq![sx[0]] + of_vendor(sx.drop_first(), v));
        assert(of_vendor(sx, v) =~= seq![x]);
        assert(of_vendor(t, v) =~= Seq::<(Seq<char>, Seq<char>, u32, u32, u8)>::empty());
        assert(insert_pos(of_vendor(t, v), x) == 0);
        assert(of_vendor(t.insert(insert_pos(t, x), x), x.2) == of_vendor(t, x.2).insert(insert_pos(of_vendor(t, x.2), x), x));
    } else if key_le(t[0], x) {
        let t1 = t.drop_first();
        assert(sorted_by_key(t1)) by {
            assert forall|a: int, b: int| 0 <= a < b < t1.len() implies key_le(#[trigger] t1[a], #[trigger] t1[b]) by {
                assert(t1[a] == t[a + 1] && t1[b] == t[b + 1]);
            }
        }
        lemma_of_vendor_insert(t1, x);
        let q = insert_pos(t1, x);
        lemma_insert_pos_facts(t1, x);
        let u = t.insert(q + 1, x);
        assert(u[0] == t[0]);
        assert(u.drop_first() =~= t1.insert(q, x));
        let w = of_vendor(t1, v);
        assert(insert_pos(t, x) == q + 1);
        assert(of_vendor(u.drop_first(), v) == w.insert(insert_pos(w, x), x));
        if t[0].2 == v {
            let ov = of_vendor(t, v);
            assert(ov == seq![t[0]] + w);
            assert(ov[0] == t[0]);
            assert(ov.drop_first() =~= w);
            assert(insert_pos(ov, x) == 1 + insert_pos(w, x));
            lemma_insert_pos_facts(w, x);
            assert((seq![t[0]] + w).insert(1 + insert_pos(w, x), x) =~= seq![t[0]] + w.insert(insert_pos(w, x), x));
            assert(of_vendor(u, v) == seq![u[0]] + of_vendor(u.drop_first(), v));
            assert(of_vendor(t.insert(insert_pos(t, x), x), x.2) == of_vendor(t, x.2).insert(insert_pos(of_vendor(t, x.2), x), x));
        } else {
            assert(of_vendor(t, v) == w);
            assert(of_vendor(u, v) == of_vendor(u.drop_first(), v));
            assert(of_vendor(t.insert(insert_pos(t, x), x), x.2) == of_vendor(t, x.2).insert(insert_pos(of_vendor(t, x.2), x), x));
        }
    } else {
        let ov = of_vendor(t, v);
        assert(t.insert(0, x) =~= seq![x] + t);
        let u = seq![x] + t;
        assert(u[0] == x);
        assert(u.drop_first() =~= t);
        assert(of_vendor(u, v) == seq![x] + ov);
        if ov.len() > 0 {
            lemma_of_vendor_in(t, v, 0);
            let j = choose|j: int| 0 <= j < t.len() && t[j] == ov[0];
            if j > 0 {
                assert(key_le(t[0], t[j]));
            }
            assert(!key_le(ov[0], x));
        }
        assert(insert_pos(ov, x) == 0);
        assert(ov.insert(0, x) =~= seq![x] + ov);
        assert(of_vendor(t.insert(0, x), v) == seq![x] + ov);
        assert(insert_pos(t, x) == 0);
        assert(of_vendor(t.insert(insert_pos(t, x), x), x.2) == of_vendor(t, x.2).insert(insert_pos(of_vendor(t, x.2), x), x));
    }
}

proof fn lemma_of_vendor_insert_other(t: Seq<(Seq<char>, Seq<char>, u32, u32, u8)>, k: int, x: (Seq<char>, Seq<char>, u32, u32, u8), v: u32)
    requires
        0 <= k <= t.len(),
        x.2 != v,
    ensures
        of_vendor(t.insert(k, x), v) == of_vendor(t, v),
    decreases t.len(),
{
    if k == 0 {
        assert(t.insert(0, x) =~= seq![x] + t);
        assert((seq![x] + t).drop_first() =~= t);
    } else {
        let u = t.insert(k, x);
        assert(u[0] == t[0]);
        assert(u.drop_first() =~= t.drop_first().insert(k - 1, x));
        lemma_of_vendor_insert_other(t.drop_first(), k - 1, x, v);
    }
}

proof fn lemma_sorted_list_of_vendor(s: Seq<(Seq<char>, Seq<char>, u32, u32, u8)>, v: u32)
    ensures
        sorted_list(of_vendor(s, v)) == of_vendor(sorted_list(s), v),
    decreases s.len(),
{
    if s.len() > 0 {
        let s1 = s.drop_last();
        let x = s.last();
        assert(s =~= s1.push(x));
        lemma_of_vendor_push(s1, x, v);
        lemma_sorted_list_of_vendor(s1, v);
        let t = sorted_list(s1);
        lemma_sorted_list_sorted(s1);
        if x.2 == v {
            let f = of_vendor(s1, v).push(x);
            assert(f.drop_last() =~= of_vendor(s1, v));
            assert(f.last() == x);
            lemma_of_vendor_insert(t, x);
        } else {
            lemma_insert_pos_facts(t, x);
            lemma_of_vendor_insert_other(t, insert_pos(t, x), x, v);
        }
    }
}

proof fn lemma_parsed_of_vendor(entries: Seq<(String, String)>, v: u32)
    ensures
        parsed_entries(entries, Some(v)) == of_vendor(parsed_entries(entries, None), v),
    decreases entries.len(),
{
    if entries.len() > 0 {
        lemma_parsed_of_vendor(entries.drop_last(), v);
        let e = entries.last();
        if let Some(d) = parse_uevent_spec(e.0@, e.1@) {
            lemma_of_vendor_push(parsed_entries(entries.drop_last(), None), d, v);
        }
    }
}

/// One vendor's listed hidraw devices are the full listing with the other
/// vendors' devices left out: same devices, same order.
pub proof fn law_vendor_listing_filters_full_listing(entries: Seq<(String, String)>, v: u32)
    ensures
        sorted_list(parsed_entries(entries, Some(v))) == of_vendor(sorted_list(parsed_entries(entries, None)), v),
{
    lemma_parsed_of_vendor(entries, v);
    lemma_sorted_list_of_vendor(parsed_entries(entries, None), v);
}

/// Orders devices by (vendor id, product id, interface); devices with the
/// same key keep their order.
pub fn sort_devices(devs: Vec<HidRawDevice>) -> (r: Vec<HidRawDevice>)
    ensures
        sorted_by_key(devs_view(r@)),
        devs_view(r@).to_multiset() == devs_view(devs@).to_multiset(),
        forall|key: (u32, u32, u8)| #[trigger] with_key(devs_view(r@), key) == with_key(devs_view(devs@), key),
        devs_view(r@) == sorted_list(devs_view(devs@)),
{
    let mut r: Vec<HidRawDevice> = Vec::new();
    let ghost input = devs@;
    let mut rest = devs;
    let mut i: usize = 0;
    let n = rest.len();
    proof {
        assert(devs_view(r@) =~= Seq::empty());
        assert(devs_view(input.take(0)) =~= Seq::empty());
    }
    while i < n
        invariant
            n == input.len(),
            rest@ == input,
            i <= n,
            sorted_by_key(devs_view(r@)),
            devs_view(r@).to_multiset() == devs_view(input.take(i as int)).to_multiset(),
            forall|key: (u32, u32, u8)| #[trigger] with_key(devs_view(r@), key) == with_key(devs_view(input.take(i as int)), key),
            devs_view(r@) == sorted_list(devs_view(input.take(i as int))),
        decreases n - i,
    {
        let d = rest[i].duplicate();
        let mut k: usize = 0;
        while k < r.len() && dev_key_le(&r[k], &d)
            invariant
                k <= r@.len(),
                forall|j: int| 0 <= j < k ==> key_le(#[trigger] r@[j]@, d@),
            decreases r@.len() - k,
        {
            k = k + 1;
        }
        let ghost before = devs_view(r@);
        proof {
            // Every element from k on has a greater key than d.
            assert forall|j: int| k <= j < r@.len() implies !key_le(#[trigger] r@[j]@, d@) by {
                if k < r@.len() {
                    assert(!key_le(r@[k as int]@, d@));
                    if j > k {
                        assert(key_le(devs_view(r@)[k as int], devs_view(r@)[j]));
                    }
                }
            }
            assert forall|j: int| k <= j < before.len() implies !key_le(#[trigger] before[j], d@) by {
                assert(before[j] == r@[j]@);
            }
            assert forall|j: int| 0 <= j < k implies key_le(#[trigger] before[j], d@) by {
                assert(before[j] == r@[j]@);
            }
            lemma_insert_pos_is(before, d@, k as int);
            let tv = devs_view(input.take(i + 1));
            assert(input.take(i + 1) =~= input.take(i as int).push(input[i as int]));
            assert(tv.drop_last() =~= devs_view(input.take(i as int)));
            assert(tv.last() == d@);
        }
        r.insert(k, d);
        proof {
            assert(devs_view(r@) =~= before.insert(k as int, d@));
            assert forall|key: (u32, u32, u8)| #[trigger] with_key(devs_view(r@), key) == with_key(
                devs_view(input.take(i + 1)),
                key,
            ) by {
                if dev_key(d@) == key {
                    assert forall|j: int| k <= j < before.len() implies dev_key(#[trigger] before[j]) != key by {
                        assert(!key_le(before[j], d@));
                    }
                }
                lemma_with_key_insert(before, k as int, d@, key);
                let t = devs_view(input.take(i + 1));
                assert(input.take(i + 1) =~= input.take(i as int).push(input[i as int]));
                assert(t =~= devs_view(input.take(i as int)).push(d@));
                assert(t.drop_last() =~= devs_view(input.take(i as int)));
            }
            lemma_insert_multiset(before, k as int, d@);
            assert(input.take(i + 1) =~= input.take(i as int).push(input[i as int]));
            assert(devs_view(input.take(i + 1)) =~= devs_view(input.take(i as int)).push(d@));
            devs_view(input.take(i as int)).to_multiset_ensures();
            assert forall|a: int, b: int| 0 <= a < b < devs_view(r@).len() implies key_le(
                #[trigger] devs_view(r@)[a],
                #[trigger] devs_view(r@)[b],
            ) by {
                let s = devs_view(r@);
                if b < k {
                    assert(s[a] == before[a] && s[b] == before[b]);
                } else if b == k {
                    assert(s[a] == before[a]);
                    assert(s[b] == d@);
                } else if a == k {
                    assert(s[b] == before[b - 1]);
                    assert(!key_le(r@[b]@, d@));
                } else if a < k {
                    assert(s[a] == before[a] && s[b] == before[b - 1]);
                } else {
                    assert(s[a] == before[a - 1] && s[b] == before[b - 1]);
                }
            }
        }
        i = i + 1;
    }
    proof {
        assert(input.take(n as int) =~= input);
    }
    r
}

/// The devices among `entries` (node name, uevent text) whose uevent parses
/// and whose vendor id passes the filter, sorted by (vendor id, product id,
/// interface).
pub open spec fn parsed_entries(entries: Seq<(String, String)>, vid_filter: Option<u32>) -> Seq<(Seq<char>, Seq<char>, u32, u32, u8)>
    decreases entries.len(),
{
    if entries.len() == 0 {
        seq![]
    } else {
        let rest = parsed_entries(entries.drop_last(), vid_filter);
        let e = entries.last();
        match parse_uevent_spec(e.0@, e.1@) {
            Some(d) => if vid_filter matches Some(f) && d.2 != f {
                rest
            } else {
                rest.push(d)
            },
            None => rest,
        }
    }
}

/// Reads the device records of hidraw nodes given as (node name, uevent text),
/// keeping those whose vendor id passes the filter, in (vendor id, product
/// id, interface) order.
pub fn parse_hidraw_entries(entries: &Vec<(String, String)>, vid_filter: Option<u32>) -> (r: Vec<HidRawDevice>)
    ensures
        sorted_by_key(devs_view(r@)),
        devs_view(r@).to_multiset() == parsed_entries(entries@, vid_filter).to_multiset(),
        forall|key: (u32, u32, u8)| #[trigger] with_key(devs_view(r@), key) == with_key(parsed_entries(entries@, vid_filter), key),
        devs_view(r@) == sorted_list(parsed_entries(entries@, vid_filter)),
{
    let mut found: Vec<HidRawDevice> = Vec::new();
    let mut i: usize = 0;
    while i < entries.len()
        invariant
            i <= entries@.len(),
            devs_view(found@) == parsed_entries(entries@.take(i as int), vid_filter),
        decreases entries@.len() - i,
    {
        proof {
            assert(entries@.take(i + 1).drop_last() =~= entries@.take(i as int));
            assert(entries@.take(i + 1).last() == entries@[i as int]);
        }
        match parse_uevent(entries[i].0.as_str(), entries[i].1.as_str()) {
            Some(d) => {
                let keep = match vid_filter {
                    Some(f) => d.vid == f,
                    None => true,
                };
                if keep {
                    let ghost prev = found@;
                    found.push(d);
                    proof {
                        assert(devs_view(found@) =~= devs_view(prev).push(d@));
                    }
                }
            },
            None => {},
        }
        i = i + 1;
    }
    proof {
        assert(entries@.take(entries@.len() as int) =~= entries@);
    }
    sort_devices(found)
}

/// All hidraw devices among the entries (node name, uevent text).
pub fn enumerate_all(entries: &Vec<(String, String)>) -> (r: Vec<HidRawDevice>)
    ensures
        sorted_by_key(devs_view(r@)),
        devs_view(r@).to_multiset() == parsed_entries(entries@, None).to_multiset(),
        forall|key: (u32, u32, u8)| #[trigger] with_key(devs_view(r@), key) == with_key(parsed_entries(entries@, None), key),
        devs_view(r@) == sorted_list(parsed_entries(entries@, None)),
{
    parse_hidraw_entries(entries, None)
}

/// The hidraw devices of one vendor among the entries (node name, uevent text).
pub fn enumerate_by_vid(entries: &Vec<(String, String)>, vid: u32) -> (r: Vec<HidRawDevice>)
    ensures
        sorted_by_key(devs_view(r@)),
        devs_view(r@).to_multiset() == parsed_entries(entries@, Some(vid)).to_multiset(),
        forall|key: (u32, u32, u8)| #[trigger] with_key(devs_view(r@), key) == with_key(parsed_entries(entries@, Some(vid)), key),
        devs_view(r@) == sorted_list(parsed_entries(entries@, Some(vid))),
{
    parse_hidraw_entries(entries, Some(vid))
}

} // verus!
