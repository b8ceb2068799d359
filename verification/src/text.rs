//! Small verified text utilities: splitting on a separator and string
//! equality, stated over character sequences.

use vstd::prelude::*;

use crate::geometry::first_index;

verus! {

/// The pieces of `s` between occurrences of `sep`. Splitting the empty
/// sequence yields one empty piece, as `str::split` does.
pub open spec fn spec_split(s: Seq<char>, sep: char) -> Seq<Seq<char>>
    decreases s.len(),
{
    let i = first_index(s, sep);
    if i < 0 || i >= s.len() {
        seq![s]
    } else {
        seq![s.take(i)] + spec_split(s.skip(i + 1), sep)
    }
}

/// Compare two strings by characters.
pub fn str_eq(a: &str, b: &str) -> (r: bool)
    ensures
        r == (a@ == b@),
{
    let na = a.unicode_len();
    let nb = b.unicode_len();
    if na != nb {
        return false;
    }
    let mut k: usize = 0;
    while k < na
        invariant
            0 <= k <= na,
            na == a@.len(),
            na == b@.len(),
            forall|m: int| 0 <= m < k ==> a@[m] == b@[m],
        decreases na - k,
    {
        if a.get_char(k) != b.get_char(k) {
            return false;
        }
        k = k + 1;
    }
    proof {
        assert(a@ =~= b@);
    }
    true
}

/// Split a string on a separator character.
pub fn split_on(s: &str, sep: char) -> (r: Vec<String>)
    ensures
        r@.map_values(|t: String| t@) == spec_split(s@, sep),
{
    let n = s.unicode_len();
    let mut r: Vec<String> = Vec::new();
    let mut start: usize = 0;
    let mut k: usize = 0;
    proof {
        assert(s@.skip(0) =~= s@);
        assert(r@.map_values(|t: String| t@) =~= Seq::<Seq<char>>::empty());
    }
    while k < n
        invariant
            0 <= start <= k <= n,
            n == s@.len(),
            forall|m: int| start <= m < k ==> s@[m] != sep,
            spec_split(s@, sep) == r@.map_values(|t: String| t@) + spec_split(
                s@.skip(start as int),
                sep,
            ),
        decreases n - k,
    {
        let c = s.get_char(k);
        if c == sep {
            let tok = s.substring_char(start, k).to_owned();
            proof {
                let rest = s@.skip(start as int);
                assert forall|m: int| 0 <= m < k - start implies rest[m] != sep by {
                    assert(rest[m] == s@[start + m]);
                }
                assert(rest[k - start] == s@[k as int]);
                crate::geometry::lemma_first_index_char(rest, sep, k - start);
                assert(rest.take(k - start) =~= s@.subrange(start as int, k as int));
                assert(rest.skip(k - start + 1) =~= s@.skip(k + 1));
                assert(spec_split(rest, sep) == seq![rest.take(k - start)] + spec_split(
                    s@.skip(k + 1),
                    sep,
                ));
            }
            let ghost old_r = r@;
            r.push(tok);
            proof {
                assert(r@.map_values(|t: String| t@) =~= old_r.map_values(|t: String| t@).push(
                    tok@,
                ));
                assert(spec_split(s@, sep) =~= r@.map_values(|t: String| t@) + spec_split(
                    s@.skip(k + 1),
                    sep,
                ));
            }
            start = k + 1;
        }
        k = k + 1;
    }
    let tok = s.substring_char(start, n).to_owned();
    proof {
        let rest = s@.skip(start as int);
        assert forall|m: int| 0 <= m < rest.len() implies rest[m] != sep by {
            assert(rest[m] == s@[start + m]);
        }
        crate::geometry::lemma_first_index_absent(rest, sep);
        assert(spec_split(rest, sep) == seq![rest]);
        assert(rest =~= s@.subrange(start as int, n as int));
    }
    let ghost old_r = r@;
    r.push(tok);
    proof {
        assert(r@.map_values(|t: String| t@) =~= old_r.map_values(|t: String| t@).push(tok@));
        assert(r@.map_values(|t: String| t@) =~= spec_split(s@, sep));
    }
    r
}

} // verus!
