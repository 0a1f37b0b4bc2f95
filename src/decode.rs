use vstd::prelude::*;
use vstd::string::StringSliceAdditionalSpecFns;

verus! {

/// An ASCII decimal digit.
pub open spec fn is_digit(c: u8) -> bool {
    48 <= c <= 57
}

pub open spec fn all_digits(d: Seq<u8>) -> bool {
    forall|i: int| 0 <= i < d.len() ==> is_digit(d[i])
}

/// The number that a string of decimal digits denotes.
pub open spec fn digits_value(d: Seq<u8>) -> nat
    decreases d.len(),
{
    if d.len() == 0 {
        0
    } else {
        digits_value(d.drop_last()) * 10 + (d.last() - 48) as nat
    }
}

/// A token without the one `+` sign it may start with.
pub open spec fn unsigned_part(t: Seq<u8>) -> Seq<u8> {
    if t.len() > 0 && t[0] == 43 {
        t.drop_first()
    } else {
        t
    }
}

/// The unsigned decimal number a token spells: an optional `+`, then one or
/// more digits.
pub open spec fn number_of(t: Seq<u8>) -> Option<nat> {
    let d = unsigned_part(t);
    if d.len() > 0 && all_digits(d) {
        Some(digits_value(d))
    } else {
        None
    }
}

/// The number a token spells, where it is at most `limit`.
pub open spec fn bounded_number(t: Seq<u8>, limit: nat) -> Option<nat> {
    match number_of(t) {
        Some(v) => if v <= limit {
            Some(v)
        } else {
            None
        },
        None => None,
    }
}

/// A seed token: any unsigned number that fits in 64 bits.
pub open spec fn seed_of(t: Seq<u8>) -> Option<u64> {
    match bounded_number(t, u64::MAX as nat) {
        Some(v) => Some(v as u64),
        None => None,
    }
}

/// A move token: an unsigned number naming one of the nine cells.
pub open spec fn move_of(t: Seq<u8>) -> Option<usize> {
    match bounded_number(t, 8) {
        Some(v) => Some(v as usize),
        None => None,
    }
}

/// The comma-separated fields of a text; a text without a comma is one field.
pub open spec fn fields(b: Seq<u8>) -> Seq<Seq<u8>>
    decreases b.len(),
{
    if b.len() == 0 {
        seq![Seq::empty()]
    } else {
        let rest = fields(b.drop_first());
        if b[0] == 44 {
            seq![Seq::<u8>::empty()] + rest
        } else {
            rest.update(0, seq![b[0]] + rest[0])
        }
    }
}

pub proof fn lemma_fields_nonempty(b: Seq<u8>)
    ensures
        fields(b).len() >= 1,
    decreases b.len(),
{
    if b.len() > 0 {
        lemma_fields_nonempty(b.drop_first());
    }
}

/// The fields of `b` from `s` on: where `j` is the first comma at or after
/// `s`, the first field is `b[s..j]` and the others are those after `j`.
pub proof fn lemma_fields_split(b: Seq<u8>, s: int, j: int)
    requires
        0 <= s <= j <= b.len(),
        forall|i: int| s <= i < j ==> b[i] != 44,
        j < b.len() ==> b[j] == 44,
    ensures
        j < b.len() ==> fields(b.subrange(s, b.len() as int)) == seq![b.subrange(s, j)]
            + fields(b.subrange(j + 1, b.len() as int)),
        j == b.len() ==> fields(b.subrange(s, b.len() as int)) == seq![b.subrange(s, j)],
    decreases j - s,
{
    let t = b.subrange(s, b.len() as int);
    lemma_fields_nonempty(t);
    if s == j {
        if j < b.len() {
            assert(t.drop_first() =~= b.subrange(j + 1, b.len() as int));
            assert(b.subrange(s, j) =~= Seq::<u8>::empty());
        } else {
            assert(t =~= Seq::<u8>::empty());
            assert(b.subrange(s, j) =~= Seq::<u8>::empty());
        }
    } else {
        lemma_fields_split(b, s + 1, j);
        assert(t.drop_first() =~= b.subrange(s + 1, b.len() as int));
        assert(t[0] == b[s]);
        assert(seq![b[s]] + b.subrange(s + 1, j) =~= b.subrange(s, j));
        let rest = fields(b.subrange(s + 1, b.len() as int));
        if j < b.len() {
            assert(rest.update(0, seq![b[s]] + rest[0]) =~= seq![b.subrange(s, j)] + fields(
                b.subrange(j + 1, b.len() as int),
            ));
        } else {
            assert(rest.update(0, seq![b[s]] + rest[0]) =~= seq![b.subrange(s, j)]);
        }
    }
}

/// Appending a comma and a field without commas adds that field at the end.
pub proof fn lemma_fields_append(x: Seq<u8>, d: Seq<u8>)
    requires
        forall|i: int| 0 <= i < d.len() ==> d[i] != 44,
    ensures
        fields(x + seq![44u8] + d) == fields(x).push(d),
    decreases x.len(),
{
    let b = x + seq![44u8] + d;
    if x.len() == 0 {
        assert(b.drop_first() =~= d);
        lemma_fields_split(d, 0, d.len() as int);
        assert(d.subrange(0, d.len() as int) =~= d);
        assert(seq![Seq::<u8>::empty()] + seq![d] =~= fields(x).push(d));
    } else {
        let y = x.drop_first();
        assert(b.drop_first() =~= y + seq![44u8] + d);
        lemma_fields_append(y, d);
        lemma_fields_nonempty(y);
        let fy = fields(y);
        if x[0] == 44 {
            assert(seq![Seq::<u8>::empty()] + fy.push(d) =~= (seq![Seq::<u8>::empty()] + fy).push(
                d,
            ));
        } else {
            assert(fy.push(d).update(0, seq![x[0]] + fy.push(d)[0]) =~= fy.update(
                0,
                seq![x[0]] + fy[0],
            ).push(d));
        }
    }
}

/// The digits value of a prefix never exceeds that of the whole digit string.
pub proof fn lemma_value_prefix(d: Seq<u8>, k: int)
    requires
        0 <= k <= d.len(),
        all_digits(d),
    ensures
        digits_value(d.subrange(0, k)) <= digits_value(d),
    decreases d.len(),
{
    if k < d.len() {
        let e = d.drop_last();
        assert(d.subrange(0, k) =~= e.subrange(0, k));
        lemma_value_prefix(e, k);
    } else {
        assert(d.subrange(0, k) =~= d);
    }
}

/// Position of the first comma in `b[from..]`, or the length of `b`.
pub fn next_comma(b: &[u8], from: usize) -> (j: usize)
    requires
        from <= b@.len(),
    ensures
        from <= j <= b@.len(),
        forall|i: int| from <= i < j ==> b@[i] != 44,
        j < b@.len() ==> b@[j as int] == 44,
{
    let mut j = from;
    while j < b.len() && b[j] != 44
        invariant
            from <= j <= b@.len(),
            forall|i: int| from <= i < j ==> b@[i] != 44,
        decreases b@.len() - j,
    {
        j = j + 1;
    }
    j
}

/// Reads the unsigned number spelt by `b[from..to]`, where it is at most
/// `limit`.
pub fn number_in(b: &[u8], from: usize, to: usize, limit: u64) -> (r: Option<u64>)
    requires
        from <= to <= b@.len(),
    ensures
        match r {
            Some(v) => bounded_number(b@.subrange(from as int, to as int), limit as nat) == Some(
                v as nat,
            ),
            None => bounded_number(b@.subrange(from as int, to as int), limit as nat) is None,
        },
{
    let ghost t = b@.subrange(from as int, to as int);
    let mut i = from;
    if i < to && b[i] == 43 {
        i = i + 1;
    }
    let start = i;
    let ghost d = b@.subrange(start as int, to as int);
    assert(unsigned_part(t) =~= d);
    if start == to {
        return None;
    }
    let mut acc: u64 = 0;
    while i < to
        invariant
            start <= i <= to <= b@.len(),
            start < to,
            d == b@.subrange(start as int, to as int),
            unsigned_part(t) == d,
            t == b@.subrange(from as int, to as int),
            acc as nat == digits_value(d.subrange(0, i - start)),
            acc <= limit,
            forall|k: int| start <= k < i ==> is_digit(b@[k]),
        decreases to - i,
    {
        let c = b[i];
        if c < 48 || c > 57 {
            assert(!is_digit(d[i - start]));
            return None;
        }
        let next: u128 = acc as u128 * 10 + (c - 48) as u128;
        proof {
            let p = d.subrange(0, i - start + 1);
            assert(p.drop_last() =~= d.subrange(0, i - start));
            assert(p.last() == c);
        }
        if next > limit as u128 {
            proof {
                if all_digits(d) {
                    lemma_value_prefix(d, i - start + 1);
                }
            }
            return None;
        }
        acc = next as u64;
        i = i + 1;
    }
    assert(d.subrange(0, i - start) =~= d);
    assert(all_digits(d));
    Some(acc)
}

/// Reads a seed token.
pub fn parse_seed(token: &str) -> (r: Option<u64>)
    ensures
        r == seed_of(token.spec_bytes()),
{
    let b = token.as_bytes();
    assert(b@.subrange(0, b@.len() as int) =~= b@);
    match number_in(b, 0, b.len(), u64::MAX) {
        Some(v) => Some(v),
        None => None,
    }
}

/// Reads a move token.
pub fn parse_move(token: &str) -> (r: Option<usize>)
    ensures
        r == move_of(token.spec_bytes()),
{
    let b = token.as_bytes();
    assert(b@.subrange(0, b@.len() as int) =~= b@);
    match number_in(b, 0, b.len(), 8) {
        Some(v) => Some(v as usize),
        None => None,
    }
}

} // verus!
