//! The keywords of the format and the typed values of its fields.
use vstd::prelude::*;
use crate::lex::{bytes_equal, byte_pos, find_byte};

verus! {

/// The words that the grammar recognises.
#[derive(Clone, Copy, Debug, PartialEq, Eq, Structural)]
pub enum Word {
    Header,
    SetCmd,
    UnsetCmd,
    Uid,
    Gid,
    Mode,
    Type,
    Size,
    Link,
    Digest,
    Time,
    Dir,
    File,
}

/// The ASCII bytes of each word.
pub open spec fn word_bytes(w: Word) -> Seq<u8> {
    match w {
        // "#mtree"
        Word::Header => seq![35u8, 109u8, 116u8, 114u8, 101u8, 101u8],
        // "/set"
        Word::SetCmd => seq![47u8, 115u8, 101u8, 116u8],
        // "/unset"
        Word::UnsetCmd => seq![47u8, 117u8, 110u8, 115u8, 101u8, 116u8],
        // "uid"
        Word::Uid => seq![117u8, 105u8, 100u8],
        // "gid"
        Word::Gid => seq![103u8, 105u8, 100u8],
        // "mode"
        Word::Mode => seq![109u8, 111u8, 100u8, 101u8],
        // "type"
        Word::Type => seq![116u8, 121u8, 112u8, 101u8],
        // "size"
        Word::Size => seq![115u8, 105u8, 122u8, 101u8],
        // "link"
        Word::Link => seq![108u8, 105u8, 110u8, 107u8],
        // "sha256digest"
        Word::Digest => seq![
            115u8, 104u8, 97u8, 50u8, 53u8, 54u8, 100u8, 105u8, 103u8, 101u8, 115u8, 116u8,
        ],
        // "time"
        Word::Time => seq![116u8, 105u8, 109u8, 101u8],
        // "dir"
        Word::Dir => seq![100u8, 105u8, 114u8],
        // "file"
        Word::File => seq![102u8, 105u8, 108u8, 101u8],
    }
}

pub fn word_vec(w: Word) -> (r: Vec<u8>)
    ensures
        r@ == word_bytes(w),
{
    let v: Vec<u8> = match w {
        Word::Header => vec![35u8, 109u8, 116u8, 114u8, 101u8, 101u8],
        Word::SetCmd => vec![47u8, 115u8, 101u8, 116u8],
        Word::UnsetCmd => vec![47u8, 117u8, 110u8, 115u8, 101u8, 116u8],
        Word::Uid => vec![117u8, 105u8, 100u8],
        Word::Gid => vec![103u8, 105u8, 100u8],
        Word::Mode => vec![109u8, 111u8, 100u8, 101u8],
        Word::Type => vec![116u8, 121u8, 112u8, 101u8],
        Word::Size => vec![115u8, 105u8, 122u8, 101u8],
        Word::Link => vec![108u8, 105u8, 110u8, 107u8],
        Word::Digest => vec![
            115u8, 104u8, 97u8, 50u8, 53u8, 54u8, 100u8, 105u8, 103u8, 101u8, 115u8, 116u8,
        ],
        Word::Time => vec![116u8, 105u8, 109u8, 101u8],
        Word::Dir => vec![100u8, 105u8, 114u8],
        Word::File => vec![102u8, 105u8, 108u8, 101u8],
    };
    proof {
        assert(v@ =~= word_bytes(w));
    }
    v
}

/// Whether `s[lo..hi]` is the word `w`.
pub fn is_word(s: &[u8], lo: usize, hi: usize, w: Word) -> (r: bool)
    requires
        lo <= hi <= s@.len(),
    ensures
        r == (s@.subrange(lo as int, hi as int) == word_bytes(w)),
{
    let v = word_vec(w);
    bytes_equal(s, lo, hi, v.as_slice())
}

/// What kind of filesystem object a path is.
#[derive(Clone, Copy, Debug, PartialEq, Eq, Structural)]
pub enum PathType {
    Dir,
    File,
    Link,
}

/// The path type that a value names, if any.
pub open spec fn path_type_of(v: Seq<u8>) -> Option<PathType> {
    if v == word_bytes(Word::Dir) {
        Some(PathType::Dir)
    } else if v == word_bytes(Word::File) {
        Some(PathType::File)
    } else if v == word_bytes(Word::Link) {
        Some(PathType::Link)
    } else {
        None
    }
}

pub fn parse_path_type(s: &[u8], lo: usize, hi: usize) -> (r: Option<PathType>)
    requires
        lo <= hi <= s@.len(),
    ensures
        r == path_type_of(s@.subrange(lo as int, hi as int)),
{
    if is_word(s, lo, hi, Word::Dir) {
        Some(PathType::Dir)
    } else if is_word(s, lo, hi, Word::File) {
        Some(PathType::File)
    } else if is_word(s, lo, hi, Word::Link) {
        Some(PathType::Link)
    } else {
        None
    }
}

pub open spec fn is_digit(b: u8) -> bool {
    48u8 <= b <= 57u8
}

pub open spec fn is_octal(b: u8) -> bool {
    48u8 <= b <= 55u8
}

pub open spec fn is_hex(b: u8) -> bool {
    is_digit(b) || (97u8 <= b <= 102u8) || (65u8 <= b <= 70u8)
}

pub open spec fn all_digits(v: Seq<u8>) -> bool {
    forall|i: int| 0 <= i < v.len() ==> is_digit(#[trigger] v[i])
}

/// The number that a string of decimal digits denotes.
pub open spec fn decimal(v: Seq<u8>) -> nat
    decreases v.len(),
{
    if v.len() == 0 {
        0
    } else {
        decimal(v.drop_last()) * 10 + (v.last() - 48u8) as nat
    }
}

/// A non-empty string of decimal digits whose value fits in 64 bits.
pub open spec fn decimal_ok(v: Seq<u8>) -> bool {
    v.len() > 0 && all_digits(v) && decimal(v) <= u64::MAX
}

pub open spec fn decimal_value(v: Seq<u8>) -> Option<u64> {
    if decimal_ok(v) {
        Some(decimal(v) as u64)
    } else {
        None
    }
}

proof fn lemma_decimal_prefix_le(v: Seq<u8>, j: int)
    requires
        all_digits(v),
        0 <= j <= v.len(),
    ensures
        decimal(v.subrange(0, j)) <= decimal(v),
    decreases v.len(),
{
    if j < v.len() {
        let w = v.drop_last();
        assert(all_digits(w)) by {
            assert forall|i: int| 0 <= i < w.len() implies is_digit(#[trigger] w[i]) by {
                assert(w[i] == v[i]);
            }
        }
        lemma_decimal_prefix_le(w, j);
        assert(w.subrange(0, j) =~= v.subrange(0, j));
    } else {
        assert(v.subrange(0, j) =~= v);
    }
}

/// Reads `s[lo..hi]` as a base-10 number.
pub fn parse_decimal(s: &[u8], lo: usize, hi: usize) -> (r: Option<u64>)
    requires
        lo <= hi <= s@.len(),
    ensures
        r == decimal_value(s@.subrange(lo as int, hi as int)),
{
    let ghost v = s@.subrange(lo as int, hi as int);
    if lo == hi {
        return None;
    }
    let mut acc: u64 = 0;
    let mut i: usize = lo;
    while i < hi
        invariant
            lo <= i <= hi <= s@.len(),
            v == s@.subrange(lo as int, hi as int),
            all_digits(s@.subrange(lo as int, i as int)),
            acc as nat == decimal(s@.subrange(lo as int, i as int)),
        decreases hi - i,
    {
        let b = s[i];
        if b < 48u8 || b > 57u8 {
            proof {
                assert(!is_digit(v[i - lo]));
            }
            return None;
        }
        let d: u64 = (b - 48u8) as u64;
        let ghost p = s@.subrange(lo as int, i + 1);
        proof {
            assert(p.drop_last() =~= s@.subrange(lo as int, i as int));
            assert(all_digits(p)) by {
                assert forall|k: int| 0 <= k < p.len() implies is_digit(#[trigger] p[k]) by {
                    if k < p.len() - 1 {
                        assert(p[k] == s@.subrange(lo as int, i as int)[k]);
                    }
                }
            }
        }
        if acc > 1844674407370955161u64 || (acc == 1844674407370955161u64 && d > 5) {
            proof {
                if all_digits(v) {
                    assert(p =~= v.subrange(0, i + 1 - lo));
                    lemma_decimal_prefix_le(v, i + 1 - lo);
                }
            }
            return None;
        }
        acc = acc * 10 + d;
        i = i + 1;
    }
    proof {
        assert(s@.subrange(lo as int, i as int) =~= v);
    }
    Some(acc)
}

/// A file mode: one to four octal digits.
pub open spec fn mode_ok(v: Seq<u8>) -> bool {
    1 <= v.len() <= 4 && forall|i: int| 0 <= i < v.len() ==> is_octal(#[trigger] v[i])
}

pub fn check_mode(s: &[u8], lo: usize, hi: usize) -> (r: bool)
    requires
        lo <= hi <= s@.len(),
    ensures
        r == mode_ok(s@.subrange(lo as int, hi as int)),
{
    let ghost v = s@.subrange(lo as int, hi as int);
    if hi - lo < 1 || hi - lo > 4 {
        return false;
    }
    let mut i: usize = lo;
    while i < hi
        invariant
            lo <= i <= hi <= s@.len(),
            v == s@.subrange(lo as int, hi as int),
            forall|k: int| lo <= k < i ==> is_octal(#[trigger] s@[k]),
        decreases hi - i,
    {
        if s[i] < 48u8 || s[i] > 55u8 {
            proof {
                assert(!is_octal(v[i - lo]));
            }
            return false;
        }
        i = i + 1;
    }
    proof {
        assert forall|k: int| 0 <= k < v.len() implies is_octal(#[trigger] v[k]) by {
            assert(v[k] == s@[lo + k]);
        }
    }
    true
}

/// The length, in hexadecimal digits, of a SHA-256 digest.
pub const DIGEST_LEN: usize = 64;

pub open spec fn all_hex(v: Seq<u8>) -> bool {
    forall|i: int| 0 <= i < v.len() ==> is_hex(#[trigger] v[i])
}

pub fn check_hex(s: &[u8], lo: usize, hi: usize) -> (r: bool)
    requires
        lo <= hi <= s@.len(),
    ensures
        r == all_hex(s@.subrange(lo as int, hi as int)),
{
    let ghost v = s@.subrange(lo as int, hi as int);
    let mut i: usize = lo;
    while i < hi
        invariant
            lo <= i <= hi <= s@.len(),
            v == s@.subrange(lo as int, hi as int),
            forall|k: int| lo <= k < i ==> is_hex(#[trigger] s@[k]),
        decreases hi - i,
    {
        let b = s[i];
        if !((48u8 <= b && b <= 57u8) || (97u8 <= b && b <= 102u8) || (65u8 <= b && b <= 70u8)) {
            proof {
                assert(!is_hex(v[i - lo]));
            }
            return false;
        }
        i = i + 1;
    }
    proof {
        assert forall|k: int| 0 <= k < v.len() implies is_hex(#[trigger] v[k]) by {
            assert(v[k] == s@[lo + k]);
        }
    }
    true
}

/// A modification time: whole seconds in base 10, optionally followed by `.`
/// and a fraction of base-10 digits, which is read and dropped.
pub open spec fn time_value(v: Seq<u8>) -> Option<u64> {
    let p = byte_pos(v, 0, v.len() as int, 46u8);
    if p < v.len() {
        let frac = v.subrange(p + 1, v.len() as int);
        if frac.len() > 0 && all_digits(frac) {
            decimal_value(v.subrange(0, p))
        } else {
            None
        }
    } else {
        decimal_value(v)
    }
}

proof fn lemma_byte_pos_shift(s: Seq<u8>, lo: int, hi: int, k: int, c: u8)
    requires
        0 <= lo <= hi <= s.len(),
        0 <= k <= hi - lo,
    ensures
        byte_pos(s, lo + k, hi, c) - lo == byte_pos(s.subrange(lo, hi), k, hi - lo, c),
    decreases hi - lo - k,
{
    if k < hi - lo {
        assert(s.subrange(lo, hi)[k] == s[lo + k]);
        lemma_byte_pos_shift(s, lo, hi, k + 1, c);
    }
}

pub fn parse_time(s: &[u8], lo: usize, hi: usize) -> (r: Option<u64>)
    requires
        lo <= hi <= s@.len(),
    ensures
        r == time_value(s@.subrange(lo as int, hi as int)),
{
    let ghost v = s@.subrange(lo as int, hi as int);
    let p = find_byte(s, lo, hi, 46u8);
    proof {
        lemma_byte_pos_shift(s@, lo as int, hi as int, 0, 46u8);
        assert(v.subrange(0, p - lo) =~= s@.subrange(lo as int, p as int));
        assert(byte_pos(v, 0, v.len() as int, 46u8) == p - lo);
    }
    if p < hi {
        proof {
            assert(v.subrange(p - lo + 1, v.len() as int) =~= s@.subrange(p + 1, hi as int));
        }
        if p + 1 == hi {
            return None;
        }
        let mut i: usize = p + 1;
        while i < hi
            invariant
                p + 1 <= i <= hi <= s@.len(),
                lo <= p,
                v == s@.subrange(lo as int, hi as int),
                byte_pos(v, 0, v.len() as int, 46u8) == p - lo,
                forall|k: int| p + 1 <= k < i ==> is_digit(#[trigger] s@[k]),
            decreases hi - i,
        {
            if s[i] < 48u8 || s[i] > 57u8 {
                proof {
                    assert(v.subrange(p - lo + 1, v.len() as int) =~= s@.subrange(p + 1, hi as int));
                    assert(!is_digit(s@.subrange(p + 1, hi as int)[i - p - 1]));
                }
                return None;
            }
            i = i + 1;
        }
        proof {
            let f = s@.subrange(p + 1, hi as int);
            assert forall|k: int| 0 <= k < f.len() implies is_digit(#[trigger] f[k]) by {
                assert(f[k] == s@[p + 1 + k]);
            }
        }
    } else {
        proof {
            assert(s@.subrange(lo as int, p as int) =~= v);
        }
    }
    parse_decimal(s, lo, p)
}

/// The keys of the format are distinct words, and so are the path types.
pub proof fn lemma_words_distinct()
    ensures
        word_bytes(Word::Type) != word_bytes(Word::Mode),
        word_bytes(Word::Size) != word_bytes(Word::Mode),
        word_bytes(Word::Size) != word_bytes(Word::Type),
        word_bytes(Word::Link) != word_bytes(Word::Mode),
        word_bytes(Word::Link) != word_bytes(Word::Type),
        word_bytes(Word::Link) != word_bytes(Word::Size),
        word_bytes(Word::Digest) != word_bytes(Word::Mode),
        word_bytes(Word::Digest) != word_bytes(Word::Type),
        word_bytes(Word::Digest) != word_bytes(Word::Size),
        word_bytes(Word::Digest) != word_bytes(Word::Link),
        word_bytes(Word::Time) != word_bytes(Word::Mode),
        word_bytes(Word::Time) != word_bytes(Word::Type),
        word_bytes(Word::Time) != word_bytes(Word::Size),
        word_bytes(Word::Time) != word_bytes(Word::Link),
        word_bytes(Word::Time) != word_bytes(Word::Digest),
        word_bytes(Word::File) != word_bytes(Word::Dir),
        word_bytes(Word::Link) != word_bytes(Word::Dir),
        word_bytes(Word::Link) != word_bytes(Word::File),
{
    assert(word_bytes(Word::Type)[0] != word_bytes(Word::Mode)[0]);
    assert(word_bytes(Word::Size)[0] != word_bytes(Word::Mode)[0]);
    assert(word_bytes(Word::Size)[0] != word_bytes(Word::Type)[0]);
    assert(word_bytes(Word::Link)[0] != word_bytes(Word::Mode)[0]);
    assert(word_bytes(Word::Link)[0] != word_bytes(Word::Type)[0]);
    assert(word_bytes(Word::Link)[0] != word_bytes(Word::Size)[0]);
    assert(word_bytes(Word::Digest).len() != word_bytes(Word::Mode).len());
    assert(word_bytes(Word::Digest).len() != word_bytes(Word::Type).len());
    assert(word_bytes(Word::Digest).len() != word_bytes(Word::Size).len());
    assert(word_bytes(Word::Digest).len() != word_bytes(Word::Link).len());
    assert(word_bytes(Word::Time)[0] != word_bytes(Word::Mode)[0]);
    assert(word_bytes(Word::Time)[1] != word_bytes(Word::Type)[1]);
    assert(word_bytes(Word::Time)[0] != word_bytes(Word::Size)[0]);
    assert(word_bytes(Word::Time)[0] != word_bytes(Word::Link)[0]);
    assert(word_bytes(Word::Time).len() != word_bytes(Word::Digest).len());
    assert(word_bytes(Word::File).len() != word_bytes(Word::Dir).len());
    assert(word_bytes(Word::Link).len() != word_bytes(Word::Dir).len());
    assert(word_bytes(Word::Link)[0] != word_bytes(Word::File)[0]);
}

} // verus!
