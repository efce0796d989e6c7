//! Byte-level token utilities for the definition language: whitespace and
//! separator splitting, token equality and lookup, and decimal numerals.
//! Every executable function is proved equal to a spec-level counterpart,
//! so contracts elsewhere can speak purely in terms of the spec functions.

use vstd::prelude::*;

verus! {

/// Whitespace in definition text: space, tab, line feed, carriage return.
pub open spec fn is_space(b: u8) -> bool {
    b == 32 || b == 9 || b == 10 || b == 13
}

pub fn is_space_byte(b: u8) -> (r: bool)
    ensures
        r == is_space(b),
{
    b == 32 || b == 9 || b == 10 || b == 13
}

/// Index of the first whitespace byte at or after `i`, or `s.len()` if none.
pub open spec fn find_space_from(s: Seq<u8>, i: int) -> int
    decreases s.len() - i,
{
    if i < 0 || i >= s.len() {
        s.len() as int
    } else if is_space(s[i]) {
        i
    } else {
        find_space_from(s, i + 1)
    }
}

/// Index of the first occurrence of `b` at or after `i`, or `s.len()` if none.
pub open spec fn find_byte_from(s: Seq<u8>, b: u8, i: int) -> int
    decreases s.len() - i,
{
    if i < 0 || i >= s.len() {
        s.len() as int
    } else if s[i] == b {
        i
    } else {
        find_byte_from(s, b, i + 1)
    }
}

fn find_space_exec(s: &[u8], from: usize) -> (r: usize)
    requires
        from <= s@.len(),
    ensures
        r == find_space_from(s@, from as int),
        from <= r <= s@.len(),
{
    let mut j: usize = from;
    while j < s.len() && !is_space_byte(s[j])
        invariant
            from <= j <= s@.len(),
            find_space_from(s@, from as int) == find_space_from(s@, j as int),
        decreases s@.len() - j,
    {
        j = j + 1;
    }
    j
}

pub fn find_byte_exec(s: &[u8], b: u8, from: usize) -> (r: usize)
    requires
        from <= s@.len(),
    ensures
        r == find_byte_from(s@, b, from as int),
        from <= r <= s@.len(),
{
    let mut j: usize = from;
    while j < s.len() && s[j] != b
        invariant
            from <= j <= s@.len(),
            find_byte_from(s@, b, from as int) == find_byte_from(s@, b, j as int),
        decreases s@.len() - j,
    {
        j = j + 1;
    }
    j
}

/// Copy of the byte range `[i, j)` of `s`.
pub fn copy_range(s: &[u8], i: usize, j: usize) -> (r: Vec<u8>)
    requires
        i <= j <= s@.len(),
    ensures
        r@ == s@.subrange(i as int, j as int),
{
    let mut r: Vec<u8> = Vec::new();
    let mut k: usize = i;
    while k < j
        invariant
            i <= k <= j <= s@.len(),
            r@ == s@.subrange(i as int, k as int),
        decreases j - k,
    {
        let b = s[k];
        r.push(b);
        k = k + 1;
        assert(r@ =~= s@.subrange(i as int, k as int));
    }
    r
}

/// Copy of a whole byte vector.
pub fn copy_bytes(v: &Vec<u8>) -> (r: Vec<u8>)
    ensures
        r@ == v@,
{
    let r = copy_range(v.as_slice(), 0, v.len());
    assert(v@.subrange(0, v@.len() as int) =~= v@);
    r
}

/// Copy of a whole token list.
pub fn copy_tokens(l: &Vec<Vec<u8>>) -> (r: Vec<Vec<u8>>)
    ensures
        r.deep_view() == l.deep_view(),
{
    let mut r: Vec<Vec<u8>> = Vec::new();
    let mut i: usize = 0;
    while i < l.len()
        invariant
            i <= l@.len(),
            r.deep_view() =~= l.deep_view().take(i as int),
        decreases l@.len() - i,
    {
        let t = copy_bytes(&l[i]);
        let ghost prev = r.deep_view();
        r.push(t);
        i = i + 1;
        assert(r.deep_view() =~~= prev.push(t@));
        assert(prev.push(t@) =~~= l.deep_view().take(i as int));
    }
    assert(l.deep_view().take(l@.len() as int) =~= l.deep_view());
    r
}

/// A token starts at `i` when `i` holds a non-space byte not preceded by one.
pub open spec fn is_token_start(s: Seq<u8>, i: int) -> bool {
    &&& 0 <= i < s.len()
    &&& !is_space(s[i])
    &&& (i == 0 || is_space(s[i - 1]))
}

/// The whitespace-separated tokens of `s` that start at or after `i`.
pub open spec fn split_ws_from(s: Seq<u8>, i: int) -> Seq<Seq<u8>>
    decreases s.len() - i,
{
    if i < 0 || i >= s.len() {
        Seq::empty()
    } else if is_token_start(s, i) {
        seq![s.subrange(i, find_space_from(s, i))] + split_ws_from(s, i + 1)
    } else {
        split_ws_from(s, i + 1)
    }
}

/// The whitespace-separated tokens of `s`, in order.
pub open spec fn split_ws(s: Seq<u8>) -> Seq<Seq<u8>> {
    split_ws_from(s, 0)
}

pub fn split_ws_exec(s: &[u8]) -> (r: Vec<Vec<u8>>)
    ensures
        r.deep_view() == split_ws(s@),
{
    let mut r: Vec<Vec<u8>> = Vec::new();
    let mut i: usize = 0;
    while i < s.len()
        invariant
            i <= s@.len(),
            r.deep_view() + split_ws_from(s@, i as int) =~= split_ws(s@),
        decreases s@.len() - i,
    {
        if !is_space_byte(s[i]) && (i == 0 || is_space_byte(s[i - 1])) {
            let j = find_space_exec(s, i);
            let tok = copy_range(s, i, j);
            let ghost prev = r.deep_view();
            r.push(tok);
            assert(r.deep_view() =~~= prev.push(tok@));
            assert(prev.push(tok@) + split_ws_from(s@, i as int + 1) =~= prev + split_ws_from(
                s@,
                i as int,
            ));
        }
        i = i + 1;
    }
    assert(r.deep_view() + split_ws_from(s@, s@.len() as int) =~= r.deep_view());
    r
}

/// No more tokens than positions: the token count is bounded by the length.
pub proof fn lemma_split_ws_len(s: Seq<u8>, i: int)
    requires
        0 <= i <= s.len(),
    ensures
        split_ws_from(s, i).len() + i <= s.len(),
    decreases s.len() - i,
{
    if i < s.len() {
        lemma_split_ws_len(s, i + 1);
    }
}

/// A field starts at `i` when `i` is 0 or follows a separator byte.
/// Unlike whitespace splitting, separator splitting keeps empty fields,
/// so a field may also start at `s.len()`.
pub open spec fn split_sep_from(s: Seq<u8>, b: u8, i: int) -> Seq<Seq<u8>>
    decreases s.len() + 1 - i,
{
    if i < 0 || i > s.len() {
        Seq::empty()
    } else if i == s.len() {
        if i == 0 || s[i - 1] == b {
            seq![Seq::empty()]
        } else {
            Seq::empty()
        }
    } else if i == 0 || s[i - 1] == b {
        seq![s.subrange(i, find_byte_from(s, b, i))] + split_sep_from(s, b, i + 1)
    } else {
        split_sep_from(s, b, i + 1)
    }
}

/// The fields of `s` between occurrences of the separator `b`, empties kept.
pub open spec fn split_sep(s: Seq<u8>, b: u8) -> Seq<Seq<u8>> {
    split_sep_from(s, b, 0)
}

pub fn split_sep_exec(s: &[u8], b: u8) -> (r: Vec<Vec<u8>>)
    ensures
        r.deep_view() == split_sep(s@, b),
{
    let mut r: Vec<Vec<u8>> = Vec::new();
    let mut i: usize = 0;
    loop
        invariant_except_break
            i <= s@.len(),
            r.deep_view() + split_sep_from(s@, b, i as int) =~= split_sep(s@, b),
        ensures
            r.deep_view() =~= split_sep(s@, b),
        decreases s@.len() - i,
    {
        if i == 0 || s[i - 1] == b {
            let tok = if i == s.len() {
                Vec::new()
            } else {
                let j = find_byte_exec(s, b, i);
                copy_range(s, i, j)
            };
            let ghost prev = r.deep_view();
            r.push(tok);
            assert(r.deep_view() =~~= prev.push(tok@));
            assert(prev.push(tok@) + split_sep_from(s@, b, i as int + 1) =~= prev + split_sep_from(
                s@,
                b,
                i as int,
            ));
        }
        if i == s.len() {
            assert(r.deep_view() + split_sep_from(s@, b, i as int + 1) =~= r.deep_view());
            break;
        }
        i = i + 1;
    }
    r
}

/// The part of a line before its first comment marker `#`.
pub open spec fn line_content(s: Seq<u8>) -> Seq<u8> {
    s.subrange(0, find_byte_from(s, 35, 0))
}

pub fn line_content_exec(s: &[u8]) -> (r: Vec<u8>)
    ensures
        r@ == line_content(s@),
{
    let j = find_byte_exec(s, 35, 0);
    copy_range(s, 0, j)
}

pub fn bytes_eq(a: &[u8], b: &[u8]) -> (r: bool)
    ensures
        r == (a@ == b@),
{
    if a.len() != b.len() {
        return false;
    }
    let mut k: usize = 0;
    while k < a.len()
        invariant
            k <= a@.len(),
            a@.len() == b@.len(),
            forall|j: int| 0 <= j < k ==> a@[j] == b@[j],
        decreases a@.len() - k,
    {
        if a[k] != b[k] {
            return false;
        }
        k = k + 1;
    }
    assert(a@ =~= b@);
    true
}

/// Index of the first element of `l` at or after `i` that equals `t`,
/// or `l.len()` if none does.
pub open spec fn idx_of_from(l: Seq<Seq<u8>>, t: Seq<u8>, i: int) -> int
    decreases l.len() - i,
{
    if i < 0 || i >= l.len() {
        l.len() as int
    } else if l[i] == t {
        i
    } else {
        idx_of_from(l, t, i + 1)
    }
}

/// Index of the first element of `l` equal to `t`, or `l.len()` if none.
pub open spec fn idx_of(l: Seq<Seq<u8>>, t: Seq<u8>) -> int {
    idx_of_from(l, t, 0)
}

pub fn idx_of_exec(l: &Vec<Vec<u8>>, t: &[u8]) -> (r: usize)
    ensures
        r == idx_of(l.deep_view(), t@),
        r <= l@.len(),
{
    let mut i: usize = 0;
    while i < l.len()
        invariant
            i <= l@.len(),
            idx_of(l.deep_view(), t@) == idx_of_from(l.deep_view(), t@, i as int),
        decreases l@.len() - i,
    {
        proof {
            assert(l.deep_view()[i as int] =~= l@[i as int]@);
        }
        if bytes_eq(l[i].as_slice(), t) {
            return i;
        }
        i = i + 1;
    }
    i
}

/// Whether some element of `l` equals `t`.
pub open spec fn has_tok(l: Seq<Seq<u8>>, t: Seq<u8>) -> bool {
    idx_of(l, t) < l.len()
}

pub fn has_tok_exec(l: &Vec<Vec<u8>>, t: &[u8]) -> (r: bool)
    ensures
        r == has_tok(l.deep_view(), t@),
{
    let i = idx_of_exec(l, t);
    i < l.len()
}

/// Decimal digit bytes of `n`, most significant first, no leading zeros.
pub open spec fn dec_digits(n: nat) -> Seq<u8>
    decreases n,
{
    if n < 10 {
        seq![(48 + n) as u8]
    } else {
        dec_digits(n / 10).push((48 + n % 10) as u8)
    }
}

fn push_dec(n: u64, out: &mut Vec<u8>)
    ensures
        final(out)@ == old(out)@ + dec_digits(n as nat),
    decreases n,
{
    if n < 10 {
        out.push(48 + n as u8);
        assert(out@ =~= old(out)@ + dec_digits(n as nat));
    } else {
        push_dec(n / 10, out);
        out.push(48 + (n % 10) as u8);
        assert(out@ =~= old(out)@ + dec_digits(n as nat));
    }
}

/// The decimal numeral of `n` as a byte token.
pub fn u64_to_dec(n: u64) -> (r: Vec<u8>)
    ensures
        r@ == dec_digits(n as nat),
{
    let mut out: Vec<u8> = Vec::new();
    push_dec(n, &mut out);
    assert(out@ =~= dec_digits(n as nat));
    out
}

pub open spec fn is_digit(b: u8) -> bool {
    48 <= b <= 57
}

pub open spec fn all_digits(s: Seq<u8>) -> bool {
    forall|k: int| 0 <= k < s.len() ==> is_digit(#[trigger] s[k])
}

/// Value of a digit string, most significant digit first.
pub open spec fn dec_val(s: Seq<u8>) -> int
    decreases s.len(),
{
    if s.len() == 0 {
        0
    } else {
        dec_val(s.drop_last()) * 10 + s.last() - 48
    }
}

pub proof fn lemma_dec_val_nonneg(s: Seq<u8>)
    requires
        all_digits(s),
    ensures
        dec_val(s) >= 0,
    decreases s.len(),
{
    if s.len() > 0 {
        assert(all_digits(s.drop_last()));
        lemma_dec_val_nonneg(s.drop_last());
    }
}

proof fn lemma_dec_val_take_mono(s: Seq<u8>, k: int)
    requires
        all_digits(s),
        0 <= k <= s.len(),
    ensures
        dec_val(s) >= dec_val(s.take(k)),
    decreases s.len() - k,
{
    if k < s.len() {
        lemma_dec_val_take_mono(s, k + 1);
        assert(s.take(k + 1).drop_last() =~= s.take(k));
        assert(all_digits(s.take(k)));
        lemma_dec_val_nonneg(s.take(k));
        assert(dec_val(s.take(k + 1)) == dec_val(s.take(k)) * 10 + s[k] - 48);
    } else {
        assert(s.take(k) =~= s);
    }
}

/// The numeric reading of a token: defined exactly when the token is a
/// nonempty digit string whose value fits in `u64`.
pub open spec fn spec_parse_dec(s: Seq<u8>) -> Option<u64> {
    if s.len() > 0 && all_digits(s) && dec_val(s) <= u64::MAX {
        Some(dec_val(s) as u64)
    } else {
        None
    }
}

pub fn parse_dec(t: &[u8]) -> (r: Option<u64>)
    ensures
        r == spec_parse_dec(t@),
{
    if t.len() == 0 {
        return None;
    }
    let mut acc: u64 = 0;
    let mut k: usize = 0;
    while k < t.len()
        invariant
            k <= t@.len(),
            all_digits(t@.take(k as int)),
            acc as int == dec_val(t@.take(k as int)),
        decreases t@.len() - k,
    {
        let b = t[k];
        if b < 48 || b > 57 {
            assert(!all_digits(t@));
            return None;
        }
        let wide: u128 = acc as u128 * 10 + (b - 48) as u128;
        proof {
            assert(t@.take(k as int + 1).drop_last() =~= t@.take(k as int));
            assert(all_digits(t@.take(k as int + 1)));
        }
        if wide > u64::MAX as u128 {
            proof {
                if all_digits(t@) {
                    lemma_dec_val_take_mono(t@, k as int + 1);
                    assert(t@.take(t@.len() as int) =~= t@);
                }
            }
            return None;
        }
        acc = wide as u64;
        k = k + 1;
    }
    proof {
        assert(t@.take(t@.len() as int) =~= t@);
        lemma_dec_val_nonneg(t@);
    }
    Some(acc)
}

/// The elements of `l` joined by the separator byte `sep`.
pub open spec fn join_from(l: Seq<Seq<u8>>, sep: u8, i: int) -> Seq<u8>
    decreases l.len() - i,
{
    if i < 0 || i >= l.len() {
        Seq::empty()
    } else if i == l.len() - 1 {
        l[i]
    } else {
        l[i] + seq![sep] + join_from(l, sep, i + 1)
    }
}

pub open spec fn join(l: Seq<Seq<u8>>, sep: u8) -> Seq<u8> {
    join_from(l, sep, 0)
}

/// Append `s` to `out`.
pub fn append_bytes(out: &mut Vec<u8>, s: &[u8])
    ensures
        final(out)@ == old(out)@ + s@,
{
    let mut k: usize = 0;
    while k < s.len()
        invariant
            k <= s@.len(),
            out@ == old(out)@ + s@.take(k as int),
        decreases s@.len() - k,
    {
        let b = s[k];
        out.push(b);
        k = k + 1;
        assert(out@ =~= old(out)@ + s@.take(k as int));
    }
    assert(out@ =~= old(out)@ + s@);
}

pub fn join_exec(l: &Vec<Vec<u8>>, sep: u8) -> (r: Vec<u8>)
    ensures
        r@ == join(l.deep_view(), sep),
{
    let mut out: Vec<u8> = Vec::new();
    let mut i: usize = 0;
    while i < l.len()
        invariant
            i <= l@.len(),
            l@.len() == l.deep_view().len(),
            i == 0 ==> out@ =~= Seq::<u8>::empty(),
            0 < i < l@.len() ==> out@ + seq![sep] + join_from(l.deep_view(), sep, i as int)
                =~= join(l.deep_view(), sep),
            i == l@.len() && l@.len() > 0 ==> out@ =~= join(l.deep_view(), sep),
        decreases l@.len() - i,
    {
        if i > 0 {
            out.push(sep);
        }
        append_bytes(&mut out, l[i].as_slice());
        proof {
            assert(l.deep_view()[i as int] == l@[i as int].deep_view());
            assert(l@[i as int].deep_view() =~= l@[i as int]@);
        }
        i = i + 1;
        assert(i < l@.len() ==> out@ + seq![sep] + join_from(l.deep_view(), sep, i as int)
            =~= join(l.deep_view(), sep));
        assert(i == l@.len() ==> out@ =~= join(l.deep_view(), sep));
    }
    out
}

/// ASCII lowercase of one byte.
pub open spec fn lower(b: u8) -> u8 {
    if 65 <= b <= 90 {
        (b + 32) as u8
    } else {
        b
    }
}

pub open spec fn lower_seq(s: Seq<u8>) -> Seq<u8> {
    s.map_values(|b: u8| lower(b))
}

pub fn to_lower(t: &[u8]) -> (r: Vec<u8>)
    ensures
        r@ == lower_seq(t@),
{
    let mut out: Vec<u8> = Vec::new();
    let mut k: usize = 0;
    while k < t.len()
        invariant
            k <= t@.len(),
            out@ =~= lower_seq(t@.take(k as int)),
        decreases t@.len() - k,
    {
        let b = t[k];
        if 65 <= b && b <= 90 {
            out.push(b + 32);
        } else {
            out.push(b);
        }
        k = k + 1;
        assert(out@ =~= lower_seq(t@.take(k as int)));
    }
    assert(t@.take(t@.len() as int) =~= t@);
    out
}

/// A caller-supplied symbol token that the definition language can carry
/// verbatim: nonempty, free of whitespace, comment markers, selector
/// punctuation, and not the wildcard.
pub open spec fn is_plain_token(t: Seq<u8>) -> bool {
    &&& t.len() > 0
    &&& forall|k: int|
        0 <= k < t.len() ==> !is_space(#[trigger] t[k]) && t[k] != 35 && t[k] != 44 && t[k] != 45
    &&& t != seq![42u8]
}

} // verus!
