//! Session identifiers on the wire: a 128-bit value rendered as 36 bytes of
//! lowercase dashed hex — five groups of 8, 4, 4, 4 and 12 digits.

use vstd::prelude::*;
use vstd::arithmetic::div_mod::lemma_fundamental_div_mod;

verus! {

/// Length in bytes of a rendered session identifier.
pub const SESSION_ID_LEN: usize = 36;

/// ASCII dash.
pub const DASH: u8 = 45;

/// 16 to the power `c`.
pub open spec fn pow16(c: nat) -> nat
    decreases c,
{
    if c == 0 {
        1
    } else {
        16 * pow16((c - 1) as nat)
    }
}

/// The low `c` nibbles of `x`, least significant first.
pub open spec fn nibbles_lsb(x: nat, c: nat) -> Seq<u8>
    decreases c,
{
    if c == 0 {
        Seq::empty()
    } else {
        seq![(x % 16) as u8] + nibbles_lsb(x / 16, (c - 1) as nat)
    }
}

/// The value of a sequence of nibbles read most significant first.
pub open spec fn nibble_value(s: Seq<u8>) -> nat
    decreases s.len(),
{
    if s.len() == 0 {
        0
    } else {
        nibble_value(s.drop_last()) * 16 + s.last() as nat
    }
}

/// Every element is a nibble.
pub open spec fn all_nibbles(s: Seq<u8>) -> bool {
    forall|i: int| 0 <= i < s.len() ==> s[i] < 16
}

/// The 32 nibbles of an identifier, most significant first.
pub open spec fn id_nibbles(id: u128) -> Seq<u8> {
    nibbles_lsb(id as nat, 32).reverse()
}

/// ASCII code of the lowercase hex digit of a nibble.
pub open spec fn hex_digit(n: u8) -> u8
    recommends
        n < 16,
{
    if n < 10 {
        (48 + n) as u8
    } else {
        (87 + n) as u8
    }
}

/// A lowercase hex digit's ASCII code.
pub open spec fn is_hex_lower(b: u8) -> bool {
    (48 <= b && b <= 57) || (97 <= b && b <= 102)
}

/// The nibble a lowercase hex digit stands for.
pub open spec fn hex_value(b: u8) -> u8
    recommends
        is_hex_lower(b),
{
    if b <= 57 {
        (b - 48) as u8
    } else {
        (b - 87) as u8
    }
}

/// The canonical rendering: hex digits with dashes after the 8th, 12th,
/// 16th and 20th digit.
pub open spec fn spec_session_id_bytes(id: u128) -> Seq<u8> {
    let h = id_nibbles(id).map_values(|n: u8| hex_digit(n));
    h.subrange(0, 8) + seq![DASH] + h.subrange(8, 12) + seq![DASH] + h.subrange(12, 16)
        + seq![DASH] + h.subrange(16, 20) + seq![DASH] + h.subrange(20, 32)
}

/// The positions that hold a dash.
pub open spec fn is_dash_position(p: int) -> bool {
    p == 8 || p == 13 || p == 18 || p == 23
}

/// What a well-formed identifier holds at position `p`.
pub open spec fn valid_byte_at(d: Seq<u8>, p: int) -> bool {
    if is_dash_position(p) {
        d[p] == DASH
    } else {
        is_hex_lower(d[p])
    }
}

/// A well-formed rendered identifier.
pub open spec fn valid_session_id_bytes(d: Seq<u8>) -> bool {
    &&& d.len() == SESSION_ID_LEN
    &&& forall|p: int| 0 <= p < d.len() ==> #[trigger] valid_byte_at(d, p)
}

/// The wire position of the `k`-th hex digit, counting the dashes before it.
pub open spec fn byte_pos(k: int) -> int {
    if k < 8 {
        k
    } else if k < 12 {
        k + 1
    } else if k < 16 {
        k + 2
    } else if k < 20 {
        k + 3
    } else {
        k + 4
    }
}

/// The identifier a well-formed rendering stands for.
pub open spec fn id_of_bytes(d: Seq<u8>) -> u128
    recommends
        valid_session_id_bytes(d),
{
    nibble_value(Seq::new(32, |k: int| hex_value(d[byte_pos(k)]))) as u128
}

/// The full range of a 128-bit identifier has 32 nibbles.
pub proof fn lemma_pow16_32()
    ensures
        pow16(32) == 0x100000000000000000000000000000000,
{
    reveal_with_fuel(pow16, 33);
}

pub proof fn lemma_pow16_pos(c: nat)
    ensures
        pow16(c) >= 1,
    decreases c,
{
    if c > 0 {
        lemma_pow16_pos((c - 1) as nat);
    }
}

pub proof fn lemma_pow16_mono(a: nat, b: nat)
    requires
        a <= b,
    ensures
        pow16(a) <= pow16(b),
    decreases b,
{
    if a < b {
        lemma_pow16_mono(a, (b - 1) as nat);
        lemma_pow16_pos((b - 1) as nat);
    }
}

/// The nibbles of a bounded value, read back most significant first, give
/// the value.
pub proof fn lemma_value_of_nibbles(x: nat, c: nat)
    requires
        x < pow16(c),
    ensures
        nibbles_lsb(x, c).len() == c,
        all_nibbles(nibbles_lsb(x, c)),
        nibble_value(nibbles_lsb(x, c).reverse()) == x,
    decreases c,
{
    if c == 0 {
        assert(nibbles_lsb(x, 0).reverse() =~= Seq::<u8>::empty());
    } else {
        lemma_fundamental_div_mod(x as int, 16);
        assert(x / 16 < pow16((c - 1) as nat));
        lemma_value_of_nibbles(x / 16, (c - 1) as nat);
        let rest = nibbles_lsb(x / 16, (c - 1) as nat);
        let whole = nibbles_lsb(x, c);
        assert(whole == seq![(x % 16) as u8] + rest);
        assert(whole.reverse() =~= rest.reverse().push((x % 16) as u8));
        assert(whole.reverse().drop_last() =~= rest.reverse());
        assert(nibble_value(whole.reverse()) == nibble_value(rest.reverse()) * 16 + (x % 16));
    }
}

fn hex_digit_exec(n: u8) -> (r: u8)
    requires
        n < 16,
    ensures
        r == hex_digit(n),
{
    if n < 10 {
        48 + n
    } else {
        87 + n
    }
}

/// Appends `h[lo..hi]` to `out`.
fn push_range(out: &mut Vec<u8>, h: &Vec<u8>, lo: usize, hi: usize)
    requires
        lo <= hi <= h@.len(),
    ensures
        final(out)@ == old(out)@ + h@.subrange(lo as int, hi as int),
{
    let ghost base = out@;
    for i in lo..hi
        invariant
            lo <= i <= hi <= h@.len(),
            out@ == base + h@.subrange(lo as int, i as int),
    {
        out.push(h[i]);
        proof {
            assert(out@ =~= base + h@.subrange(lo as int, i as int + 1));
        }
    }
    proof {
        assert(out@ =~= base + h@.subrange(lo as int, hi as int));
    }
}

/// Renders an identifier in its canonical dashed-hex form.
pub fn format_session_id(id: u128) -> (r: Vec<u8>)
    ensures
        r@ == spec_session_id_bytes(id),
        r@.len() == SESSION_ID_LEN,
{
    // Nibbles of `id`, least significant first.
    let mut lsb: Vec<u8> = Vec::new();
    let mut x = id;
    for k in 0..32usize
        invariant
            lsb@.len() == k,
            all_nibbles(lsb@),
            lsb@ + nibbles_lsb(x as nat, (32 - k) as nat) == nibbles_lsb(id as nat, 32),
    {
        let ghost rest = nibbles_lsb(x as nat, (32 - k) as nat);
        let nib = (x % 16) as u8;
        lsb.push(nib);
        x = x / 16;
        proof {
            assert(rest == seq![nib] + nibbles_lsb(x as nat, (32 - (k + 1)) as nat));
            assert(lsb@ + nibbles_lsb(x as nat, (32 - (k + 1)) as nat) =~= nibbles_lsb(
                id as nat,
                32,
            ));
        }
    }
    proof {
        assert(nibbles_lsb(x as nat, 0) =~= Seq::<u8>::empty());
        assert(lsb@ =~= nibbles_lsb(id as nat, 32));
    }
    // Hex digits, most significant first.
    let ghost hspec = id_nibbles(id).map_values(|n: u8| hex_digit(n));
    let mut h: Vec<u8> = Vec::new();
    for k in 0..32usize
        invariant
            lsb@ == nibbles_lsb(id as nat, 32),
            lsb@.len() == 32,
            all_nibbles(lsb@),
            h@ == hspec.take(k as int),
            hspec == id_nibbles(id).map_values(|n: u8| hex_digit(n)),
    {
        let d = hex_digit_exec(lsb[31 - k]);
        h.push(d);
        proof {
            assert(id_nibbles(id)[k as int] == lsb@[31 - k as int]);
            assert(h@ =~= hspec.take(k as int + 1));
        }
    }
    proof {
        assert(h@ =~= hspec);
    }
    // Assemble the groups.
    let mut out: Vec<u8> = Vec::new();
    push_range(&mut out, &h, 0, 8);
    out.push(DASH);
    push_range(&mut out, &h, 8, 12);
    out.push(DASH);
    push_range(&mut out, &h, 12, 16);
    out.push(DASH);
    push_range(&mut out, &h, 16, 20);
    out.push(DASH);
    push_range(&mut out, &h, 20, 32);
    proof {
        assert(out@ =~= spec_session_id_bytes(id));
    }
    out
}

fn byte_pos_exec(k: usize) -> (r: usize)
    requires
        k < 32,
    ensures
        r as int == byte_pos(k as int),
{
    if k < 8 {
        k
    } else if k < 12 {
        k + 1
    } else if k < 16 {
        k + 2
    } else if k < 20 {
        k + 3
    } else {
        k + 4
    }
}

/// Parses a rendered identifier; accepts exactly the canonical lowercase
/// dashed-hex form.
pub fn parse_session_id(bytes: &[u8]) -> (r: Option<u128>)
    ensures
        r is Some <==> valid_session_id_bytes(bytes@),
        valid_session_id_bytes(bytes@) ==> r == Some(id_of_bytes(bytes@)),
{
    if bytes.len() != SESSION_ID_LEN {
        return None;
    }
    for p in 0..SESSION_ID_LEN
        invariant
            bytes@.len() == SESSION_ID_LEN,
            forall|q: int| 0 <= q < p ==> #[trigger] valid_byte_at(bytes@, q),
    {
        let b = bytes[p];
        if p == 8 || p == 13 || p == 18 || p == 23 {
            if b != DASH {
                proof {
                    assert(!valid_byte_at(bytes@, p as int));
                }
                return None;
            }
        } else {
            if !((48 <= b && b <= 57) || (97 <= b && b <= 102)) {
                proof {
                    assert(!valid_byte_at(bytes@, p as int));
                }
                return None;
            }
        }
    }
    let ghost nibs = Seq::new(32, |k: int| hex_value(bytes@[byte_pos(k)]));
    proof {
        assert forall|k: int| 0 <= k < 32 implies nibs[k] < 16 by {
            let p = byte_pos(k);
            assert(0 <= p < 36);
            assert(!is_dash_position(p));
            assert(valid_byte_at(bytes@, p));
        }
    }
    let mut acc: u128 = 0;
    for k in 0..32usize
        invariant
            bytes@.len() == SESSION_ID_LEN,
            forall|q: int| 0 <= q < SESSION_ID_LEN ==> #[trigger] valid_byte_at(bytes@, q),
            nibs == Seq::new(32, |j: int| hex_value(bytes@[byte_pos(j)])),
            all_nibbles(nibs),
            acc as nat == nibble_value(nibs.take(k as int)),
            (acc as nat) < pow16(k as nat),
    {
        let p = byte_pos_exec(k);
        proof {
            assert(valid_byte_at(bytes@, p as int));
        }
        let b = bytes[p];
        let nib = if b <= 57 {
            b - 48
        } else {
            b - 87
        };
        proof {
            assert(nib == nibs[k as int]);
            let q = acc as nat;
            let pk = pow16(k as nat);
            assert(q * 16 + nib < 16 * pk) by (nonlinear_arith)
                requires
                    q < pk,
                    nib < 16,
            ;
            lemma_pow16_mono((k + 1) as nat, 32);
            lemma_pow16_32();
        }
        acc = acc * 16 + nib as u128;
        proof {
            assert(nibs.take(k as int + 1).drop_last() =~= nibs.take(k as int));
            assert(nibs.take(k as int + 1).last() == nibs[k as int]);
        }
    }
    proof {
        assert(nibs.take(32) =~= nibs);
    }
    Some(acc)
}

/// Round trip: the canonical rendering of an identifier is well formed and
/// decodes to the identifier itself.
pub proof fn lemma_session_id_round_trip(id: u128)
    ensures
        valid_session_id_bytes(spec_session_id_bytes(id)),
        id_of_bytes(spec_session_id_bytes(id)) == id,
{
    lemma_pow16_32();
    lemma_value_of_nibbles(id as nat, 32);
    let nib = id_nibbles(id);
    let h = nib.map_values(|n: u8| hex_digit(n));
    let d = spec_session_id_bytes(id);
    assert(d.len() == SESSION_ID_LEN);
    assert forall|k: int| 0 <= k < 32 implies #[trigger] d[byte_pos(k)] == hex_digit(nib[k]) by {
        assert(h[k] == hex_digit(nib[k]));
    }
    assert forall|p: int| 0 <= p < d.len() implies #[trigger] valid_byte_at(d, p) by {
        if !is_dash_position(p) {
            let k = if p < 8 {
                p
            } else if p < 13 {
                p - 1
            } else if p < 18 {
                p - 2
            } else if p < 23 {
                p - 3
            } else {
                p - 4
            };
            assert(byte_pos(k) == p);
            assert(d[p] == hex_digit(nib[k]));
            assert(nib[k] < 16);
        }
    }
    let back = Seq::new(32, |k: int| hex_value(d[byte_pos(k)]));
    assert forall|k: int| 0 <= k < 32 implies back[k] == nib[k] by {
        assert(d[byte_pos(k)] == hex_digit(nib[k]));
        assert(nib[k] < 16);
    }
    assert(back =~= nib);
}

} // verus!
