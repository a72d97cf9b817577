//! Splitting a line into whitespace-delimited fields, and byte-level helpers.
use vstd::prelude::*;

verus! {

/// A byte that separates fields within a line: space, tab or carriage return.
pub open spec fn is_ws(b: u8) -> bool {
    b == 32u8 || b == 9u8 || b == 13u8
}

pub fn is_ws_byte(b: u8) -> (r: bool)
    ensures
        r == is_ws(b),
{
    b == 32u8 || b == 9u8 || b == 13u8
}

/// A half-open byte range `[start, end)` of the input.
#[derive(Clone, Copy, Debug, PartialEq, Eq, Structural)]
pub struct Span {
    pub start: usize,
    pub end: usize,
}

pub open spec fn span_within(t: Span, lo: int, hi: int) -> bool {
    lo <= t.start && t.start < t.end && t.end <= hi
}

pub open spec fn opt_int(o: Option<usize>) -> Option<int> {
    match o {
        Some(x) => Some(x as int),
        None => None,
    }
}

/// The fields of `s[i..hi]`, scanned left to right and appended to `acc`;
/// `open` is the start of the field being read, if one is.
pub open spec fn fields_from(s: Seq<u8>, i: int, hi: int, open: Option<int>, acc: Seq<Span>) -> Seq<
    Span,
>
    decreases hi - i,
{
    if i >= hi {
        match open {
            Some(st) => acc.push(Span { start: st as usize, end: hi as usize }),
            None => acc,
        }
    } else if is_ws(s[i]) {
        match open {
            Some(st) => fields_from(
                s,
                i + 1,
                hi,
                None,
                acc.push(Span { start: st as usize, end: i as usize }),
            ),
            None => fields_from(s, i + 1, hi, None, acc),
        }
    } else {
        let o = match open {
            Some(st) => Some(st),
            None => Some(i),
        };
        fields_from(s, i + 1, hi, o, acc)
    }
}

/// The maximal runs of non-whitespace bytes in `s[lo..hi]`, in order.
pub open spec fn fields(s: Seq<u8>, lo: int, hi: int) -> Seq<Span> {
    fields_from(s, lo, hi, None, seq![])
}

pub proof fn lemma_fields_from_within(
    s: Seq<u8>,
    i: int,
    hi: int,
    open: Option<int>,
    acc: Seq<Span>,
    lo: int,
)
    requires
        0 <= lo <= i <= hi <= s.len() <= usize::MAX,
        open is Some ==> lo <= open->0 < i,
        forall|k: int| 0 <= k < acc.len() ==> span_within(#[trigger] acc[k], lo, hi),
    ensures
        forall|k: int|
            0 <= k < fields_from(s, i, hi, open, acc).len() ==> span_within(
                #[trigger] fields_from(s, i, hi, open, acc)[k],
                lo,
                hi,
            ),
    decreases hi - i,
{
    if i >= hi {
        if let Some(st) = open {
            let a2 = acc.push(Span { start: st as usize, end: hi as usize });
            assert forall|k: int| 0 <= k < a2.len() implies span_within(#[trigger] a2[k], lo, hi) by {
                if k < acc.len() {
                    assert(a2[k] == acc[k]);
                }
            }
        }
    } else if is_ws(s[i]) {
        match open {
            Some(st) => {
                let a2 = acc.push(Span { start: st as usize, end: i as usize });
                assert forall|k: int| 0 <= k < a2.len() implies span_within(#[trigger] a2[k], lo, hi) by {
                    if k < acc.len() {
                        assert(a2[k] == acc[k]);
                    }
                }
                lemma_fields_from_within(s, i + 1, hi, None, a2, lo);
                assert(fields_from(s, i, hi, open, acc) == fields_from(s, i + 1, hi, None, a2));
            },
            None => {
                lemma_fields_from_within(s, i + 1, hi, None, acc, lo);
                assert(fields_from(s, i, hi, open, acc) == fields_from(s, i + 1, hi, None, acc));
            },
        }
    } else {
        let o = match open {
            Some(st) => Some(st),
            None => Some(i),
        };
        lemma_fields_from_within(s, i + 1, hi, o, acc, lo);
        assert(fields_from(s, i, hi, open, acc) == fields_from(s, i + 1, hi, o, acc));
    }
}

/// Splits `s[lo..hi]` into its whitespace-delimited fields.
pub fn split_fields(s: &[u8], lo: usize, hi: usize) -> (r: Vec<Span>)
    requires
        lo <= hi <= s@.len(),
    ensures
        r@ == fields(s@, lo as int, hi as int),
        forall|k: int| 0 <= k < r@.len() ==> span_within(#[trigger] r@[k], lo as int, hi as int),
{
    let n = s.len();
    proof {
        lemma_fields_from_within(s@, lo as int, hi as int, None, seq![], lo as int);
    }
    let mut out: Vec<Span> = Vec::new();
    let mut open: Option<usize> = None;
    let mut i: usize = lo;
    while i < hi
        invariant
            lo <= i <= hi <= s@.len(),
            open is Some ==> lo <= open->0 < i,
            fields_from(s@, i as int, hi as int, opt_int(open), out@) == fields(
                s@,
                lo as int,
                hi as int,
            ),
        decreases hi - i,
    {
        if is_ws_byte(s[i]) {
            if let Some(st) = open {
                out.push(Span { start: st, end: i });
            }
            open = None;
        } else if open.is_none() {
            open = Some(i);
        }
        i = i + 1;
    }
    if let Some(st) = open {
        out.push(Span { start: st, end: hi });
    }
    out
}

/// A copy of `s[lo..hi]`.
pub fn copy_bytes(s: &[u8], lo: usize, hi: usize) -> (r: Vec<u8>)
    requires
        lo <= hi <= s@.len(),
    ensures
        r@ == s@.subrange(lo as int, hi as int),
{
    let mut out: Vec<u8> = Vec::new();
    let mut i: usize = lo;
    while i < hi
        invariant
            lo <= i <= hi <= s@.len(),
            out@ == s@.subrange(lo as int, i as int),
        decreases hi - i,
    {
        out.push(s[i]);
        proof {
            assert(out@ =~= s@.subrange(lo as int, i + 1));
        }
        i = i + 1;
    }
    out
}

/// Whether `s[lo..hi]` holds exactly the bytes of `w`.
pub fn bytes_equal(s: &[u8], lo: usize, hi: usize, w: &[u8]) -> (r: bool)
    requires
        lo <= hi <= s@.len(),
    ensures
        r == (s@.subrange(lo as int, hi as int) == w@),
{
    if hi - lo != w.len() {
        proof {
            assert(s@.subrange(lo as int, hi as int).len() != w@.len());
        }
        return false;
    }
    let mut k: usize = 0;
    while k < w.len()
        invariant
            hi - lo == w@.len(),
            lo <= hi <= s@.len(),
            k <= w@.len(),
            forall|j: int| 0 <= j < k ==> s@[lo + j] == w@[j],
        decreases w@.len() - k,
    {
        if s[lo + k] != w[k] {
            proof {
                assert(s@.subrange(lo as int, hi as int)[k as int] != w@[k as int]);
            }
            return false;
        }
        k = k + 1;
    }
    proof {
        assert(s@.subrange(lo as int, hi as int) =~= w@);
    }
    true
}

/// The position of the first byte `c` in `s[lo..hi]`, or `hi` where there is none.
pub open spec fn byte_pos(s: Seq<u8>, lo: int, hi: int, c: u8) -> int
    decreases hi - lo,
{
    if lo >= hi {
        hi
    } else if s[lo] == c {
        lo
    } else {
        byte_pos(s, lo + 1, hi, c)
    }
}

pub proof fn lemma_byte_pos_bounds(s: Seq<u8>, lo: int, hi: int, c: u8)
    requires
        lo <= hi,
    ensures
        lo <= byte_pos(s, lo, hi, c) <= hi,
    decreases hi - lo,
{
    if lo < hi && s[lo] != c {
        lemma_byte_pos_bounds(s, lo + 1, hi, c);
    }
}

/// Finds the first byte `c` in `s[lo..hi]`.
pub fn find_byte(s: &[u8], lo: usize, hi: usize, c: u8) -> (r: usize)
    requires
        lo <= hi <= s@.len(),
    ensures
        r == byte_pos(s@, lo as int, hi as int, c),
        lo <= r <= hi,
{
    proof {
        lemma_byte_pos_bounds(s@, lo as int, hi as int, c);
    }
    let mut i: usize = lo;
    while i < hi
        invariant
            lo <= i <= hi <= s@.len(),
            byte_pos(s@, i as int, hi as int, c) == byte_pos(s@, lo as int, hi as int, c),
        decreases hi - i,
    {
        if s[i] == c {
            return i;
        }
        i = i + 1;
    }
    i
}

} // verus!
