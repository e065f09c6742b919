//! Filtering a process listing by name, as the system-token handler does
//! when it hunts for its host process.  The listing itself comes from the
//! operating system outside the library; the match rule is verified here.

use vstd::prelude::*;

verus! {

/// What `str::to_lowercase` returns for a string.
pub uninterp spec fn lower_of(s: Seq<char>) -> Seq<char>;

/// Relies on `str::to_lowercase`: the result depends on the characters of
/// the input alone.
#[verifier::external_body]
fn lowercase(s: &str) -> (r: String)
    ensures
        r@ == lower_of(s@),
{
    s.to_lowercase()
}

/// `needle` appears in `hay` starting at position `i`.
pub open spec fn contains_at(hay: Seq<char>, needle: Seq<char>, i: int) -> bool {
    0 <= i && i + needle.len() <= hay.len() && hay.subrange(i, i + needle.len()) == needle
}

/// `needle` appears somewhere in `hay`; the empty needle always does.
pub open spec fn contains_sp(hay: Seq<char>, needle: Seq<char>) -> bool {
    exists|i: int| contains_at(hay, needle, i)
}

/// Substring search, like `str::contains` with a string pattern.
pub fn str_contains(hay: &str, needle: &str) -> (r: bool)
    ensures
        r == contains_sp(hay@, needle@),
{
    let hlen = hay.unicode_len();
    let nlen = needle.unicode_len();
    if nlen > hlen {
        proof {
            assert(forall|i: int| !contains_at(hay@, needle@, i));
        }
        return false;
    }
    if nlen == 0 {
        proof {
            assert(hay@.subrange(0, 0) =~= needle@);
            assert(contains_at(hay@, needle@, 0));
        }
        return true;
    }
    let mut i: usize = 0;
    while i <= hlen - nlen
        invariant
            0 < nlen <= hlen,
            hlen == hay@.len(),
            nlen == needle@.len(),
            i <= hlen - nlen + 1,
            forall|k: int| 0 <= k < i ==> !contains_at(hay@, needle@, k),
        decreases hlen - nlen + 1 - i,
    {
        let mut j: usize = 0;
        let mut matched = true;
        while j < nlen
            invariant
                i + nlen <= hlen,
                hlen == hay@.len(),
                nlen == needle@.len(),
                j <= nlen,
                matched ==> forall|k: int| 0 <= k < j ==> hay@[i + k] == needle@[k],
                !matched ==> !contains_at(hay@, needle@, i as int),
            decreases nlen - j,
        {
            if hay.get_char(i + j) != needle.get_char(j) {
                proof {
                    assert(hay@.subrange(i as int, i + nlen) != needle@) by {
                        assert(hay@.subrange(i as int, i + nlen)[j as int] == hay@[i + j]);
                    }
                }
                matched = false;
                j = nlen;
            } else {
                j += 1;
            }
        }
        if matched {
            proof {
                assert(hay@.subrange(i as int, i + nlen) =~= needle@);
                assert(contains_at(hay@, needle@, i as int));
            }
            return true;
        }
        i += 1;
    }
    proof {
        assert(forall|k: int| !contains_at(hay@, needle@, k));
    }
    false
}

/// The view of a process listing: each entry's identifier and name.
pub open spec fn proc_views(ps: Seq<(u32, String)>) -> Seq<(u32, Seq<char>)> {
    ps.map_values(|p: (u32, String)| (p.0, p.1@))
}

/// The entries whose lower-cased name contains the query, in listed order.
pub open spec fn matched_procs(ps: Seq<(u32, Seq<char>)>, query: Seq<char>) -> Seq<
    (u32, Seq<char>),
>
    decreases ps.len(),
{
    if ps.len() == 0 {
        Seq::empty()
    } else {
        let rest = matched_procs(ps.drop_last(), query);
        if contains_sp(lower_of(ps.last().1), query) {
            rest.push(ps.last())
        } else {
            rest
        }
    }
}

/// Filters a process listing down to the entries whose lower-cased name
/// contains the query.
pub fn get_processes(procs: &Vec<(u32, String)>, proc_name: &str) -> (r: Vec<(u32, String)>)
    ensures
        proc_views(r@) == matched_procs(proc_views(procs@), proc_name@),
{
    let mut out: Vec<(u32, String)> = Vec::new();
    let mut i: usize = 0;
    proof {
        assert(proc_views(out@) =~~= matched_procs(proc_views(procs@).take(0), proc_name@));
    }
    while i < procs.len()
        invariant
            i <= procs@.len(),
            proc_views(out@) == matched_procs(proc_views(procs@).take(i as int), proc_name@),
        decreases procs@.len() - i,
    {
        let ghost pv = proc_views(procs@);
        proof {
            assert(pv.take(i + 1).drop_last() =~= pv.take(i as int));
            assert(pv.take(i + 1).last() == pv[i as int]);
            assert(pv[i as int] == (procs@[i as int].0, procs@[i as int].1@));
        }
        let low = lowercase(procs[i].1.as_str());
        if str_contains(low.as_str(), proc_name) {
            let ghost opre = out@;
            let entry = (procs[i].0, procs[i].1.clone());
            out.push(entry);
            proof {
                assert(proc_views(out@) =~~= proc_views(opre).push(
                    (procs@[i as int].0, procs@[i as int].1@),
                ));
            }
        }
        i += 1;
    }
    proof {
        assert(proc_views(procs@).take(procs@.len() as int) =~= proc_views(procs@));
    }
    out
}

} // verus!
