//! Decoding of encoded profile records: `key=value` pairs joined by a
//! separator byte, as the profile-forgery oracle emits them.

use vstd::prelude::*;

verus! {

/// Index of the first occurrence of `sep`, or `-1` when there is none.
pub open spec fn first_idx(s: Seq<u8>, sep: u8) -> int
    decreases s.len(),
{
    if s.len() == 0 {
        -1
    } else if s[0] == sep {
        0
    } else {
        let r = first_idx(s.skip(1), sep);
        if r < 0 {
            -1
        } else {
            r + 1
        }
    }
}

/// `first_idx` names the position of `sep` found by a left-to-right scan.
pub proof fn lemma_first_idx_is(s: Seq<u8>, sep: u8, j: int)
    requires
        0 <= j < s.len(),
        s[j] == sep,
        forall|t: int| 0 <= t < j ==> s[t] != sep,
    ensures
        first_idx(s, sep) == j,
    decreases s.len(),
{
    if j > 0 {
        assert forall|t: int| 0 <= t < j - 1 implies s.skip(1)[t] != sep by {
            assert(s.skip(1)[t] == s[t + 1]);
        }
        assert(s.skip(1)[j - 1] == s[j]);
        lemma_first_idx_is(s.skip(1), sep, j - 1);
    }
}

/// When no byte equals `sep`, `first_idx` reports none.
pub proof fn lemma_first_idx_none(s: Seq<u8>, sep: u8)
    requires
        forall|t: int| 0 <= t < s.len() ==> s[t] != sep,
    ensures
        first_idx(s, sep) == -1,
    decreases s.len(),
{
    if s.len() > 0 {
        assert forall|t: int| 0 <= t < s.skip(1).len() implies s.skip(1)[t] != sep by {
            assert(s.skip(1)[t] == s[t + 1]);
        }
        lemma_first_idx_none(s.skip(1), sep);
    }
}

/// Split at every occurrence of `sep`; splitting the empty sequence gives
/// one empty piece, as `slice::split` does.
pub open spec fn spec_split(s: Seq<u8>, sep: u8) -> Seq<Seq<u8>>
    decreases s.len(),
{
    let f = first_idx(s, sep);
    if f < 0 || f >= s.len() {
        seq![s]
    } else {
        seq![s.take(f)] + spec_split(s.skip(f + 1), sep)
    }
}

/// The key of a `key=value` piece: everything before the first `=`, or
/// the whole piece when there is none.
pub open spec fn pair_key(piece: Seq<u8>) -> Seq<u8> {
    let f = first_idx(piece, 61u8);
    if f < 0 {
        piece
    } else {
        piece.take(f)
    }
}

/// The value of a `key=value` piece: between the first and the second `=`
/// (empty when there is no `=` at all).
pub open spec fn pair_val(piece: Seq<u8>) -> Seq<u8> {
    let f = first_idx(piece, 61u8);
    if f < 0 {
        Seq::empty()
    } else {
        let rest = piece.skip(f + 1);
        let f2 = first_idx(rest, 61u8);
        if f2 < 0 {
            rest
        } else {
            rest.take(f2)
        }
    }
}

/// Copy `u[a..b]`.
fn copy_range(u: &[u8], a: usize, b: usize) -> (r: Vec<u8>)
    requires
        a <= b <= u@.len(),
    ensures
        r@ == u@.subrange(a as int, b as int),
{
    let mut r: Vec<u8> = Vec::new();
    let mut i: usize = a;
    while i < b
        invariant
            a <= i <= b <= u@.len(),
            r@ == u@.subrange(a as int, i as int),
        decreases b - i,
    {
        r.push(u[i]);
        proof {
            assert(r@ =~= u@.subrange(a as int, i + 1));
        }
        i += 1;
    }
    r
}

/// Scan for `sep` from position `from` on.
fn find_byte(u: &[u8], from: usize, sep: u8) -> (r: Option<usize>)
    requires
        from <= u@.len(),
    ensures
        match r {
            Some(j) => from <= j < u@.len() && u@[j as int] == sep && first_idx(
                u@.skip(from as int),
                sep,
            ) == j - from,
            None => first_idx(u@.skip(from as int), sep) == -1,
        },
{
    let n = u.len();
    let mut i: usize = from;
    while i < n
        invariant
            from <= i <= n == u@.len(),
            forall|t: int| from <= t < i ==> u@[t] != sep,
        decreases n - i,
    {
        if u[i] == sep {
            proof {
                let s = u@.skip(from as int);
                assert forall|t: int| 0 <= t < i - from implies s[t] != sep by {
                    assert(s[t] == u@[from + t]);
                }
                assert(s[i - from] == u@[i as int]);
                lemma_first_idx_is(s, sep, i - from);
            }
            return Some(i);
        }
        i += 1;
    }
    proof {
        let s = u@.skip(from as int);
        assert forall|t: int| 0 <= t < s.len() implies s[t] != sep by {
            assert(s[t] == u@[from + t]);
        }
        lemma_first_idx_none(s, sep);
    }
    None
}

/// The key and value of one encoded piece.
fn key_value(piece: &[u8]) -> (r: (Vec<u8>, Vec<u8>))
    ensures
        r.0@ == pair_key(piece@),
        r.1@ == pair_val(piece@),
{
    let n = piece.len();
    proof {
        assert(piece@.skip(0) =~= piece@);
        assert(n == piece@.len());
    }
    match find_byte(piece, 0, 61) {
        None => {
            let key = copy_range(piece, 0, piece.len());
            proof {
                assert(key@ =~= piece@);
            }
            (key, Vec::new())
        },
        Some(j) => {
            let key = copy_range(piece, 0, j);
            proof {
                assert(key@ =~= piece@.take(j as int));
            }
            let rest_from = j + 1;
            let ghost rest = piece@.skip(rest_from as int);
            let val = match find_byte(piece, rest_from, 61) {
                None => {
                    let v = copy_range(piece, rest_from, piece.len());
                    proof {
                        assert(v@ =~= rest);
                    }
                    v
                },
                Some(j2) => {
                    let v = copy_range(piece, rest_from, j2);
                    proof {
                        assert(v@ =~= rest.take(j2 - rest_from));
                    }
                    v
                },
            };
            (key, val)
        },
    }
}

/// Decode an encoded profile into its `key=value` pairs, one per
/// separator-delimited piece, in order of appearance.
pub fn decode_profile(u: &[u8], sep: u8) -> (r: Vec<(Vec<u8>, Vec<u8>)>)
    ensures
        r@.len() == spec_split(u@, sep).len(),
        forall|i: int|
            0 <= i < r@.len() ==> (#[trigger] r@[i]).0@ == pair_key(spec_split(u@, sep)[i])
                && r@[i].1@ == pair_val(spec_split(u@, sep)[i]),
{
    let ghost pieces = spec_split(u@, sep);
    let mut r: Vec<(Vec<u8>, Vec<u8>)> = Vec::new();
    let total = u.len();
    let mut start: usize = 0;
    proof {
        assert(u@.skip(0) =~= u@);
    }
    loop
        invariant
            start <= total == u@.len(),
            pieces == spec_split(u@, sep),
            r@.len() <= pieces.len(),
            pieces.len() == r@.len() + spec_split(u@.skip(start as int), sep).len(),
            forall|i: int|
                0 <= i < spec_split(u@.skip(start as int), sep).len() ==> #[trigger] spec_split(
                    u@.skip(start as int),
                    sep,
                )[i] == pieces[r@.len() + i],
            forall|i: int|
                0 <= i < r@.len() ==> (#[trigger] r@[i]).0@ == pair_key(pieces[i]) && r@[i].1@
                    == pair_val(pieces[i]),
        decreases u@.len() - start + 1,
    {
        let ghost s = u@.skip(start as int);
        match find_byte(u, start, sep) {
            Some(j) => {
                let piece = copy_range(u, start, j);
                proof {
                    assert(piece@ =~= s.take(j - start));
                    assert(spec_split(s, sep) == seq![s.take(j - start)] + spec_split(
                        s.skip(j - start + 1),
                        sep,
                    ));
                    assert(s.skip(j - start + 1) =~= u@.skip(j + 1));
                }
                let kv = key_value(piece.as_slice());
                r.push(kv);
                proof {
                    assert(spec_split(s, sep)[0] == s.take(j - start));
                    assert forall|i: int|
                        0 <= i < spec_split(u@.skip(j + 1), sep).len() implies #[trigger]
                    spec_split(u@.skip(j + 1), sep)[i] == pieces[r@.len() + i] by {
                        assert(spec_split(s, sep)[i + 1] == spec_split(u@.skip(j + 1), sep)[i]);
                    }
                }
                start = j + 1;
            },
            None => {
                let piece = copy_range(u, start, u.len());
                proof {
                    assert(piece@ =~= s);
                    assert(spec_split(s, sep) == seq![s]);
                    assert(spec_split(s, sep)[0] == s);
                }
                let kv = key_value(piece.as_slice());
                r.push(kv);
                return r;
            },
        }
    }
}

} // verus!
