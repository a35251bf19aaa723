//! Membership sets from the category-assignment source.
//!
//! Each row is `(imageId, ..., categoryCode)` with the code in the third
//! field. An identifier joins the woman set when its code equals the woman
//! code, else the man set when it equals the man code; other rows are
//! ignored. The source may repeat an identifier, so [`dedup_ids`] keeps the
//! first occurrence of each before the fetch stage.

use vstd::prelude::*;
use crate::rows::{BuildError, has_short_row, lemma_table_view};

verus! {

/// The identifiers of rows whose code equals the woman code, in row order.
pub open spec fn woman_ids(rs: Seq<Seq<Seq<char>>>, w: Seq<char>) -> Seq<Seq<char>>
    decreases rs.len(),
{
    if rs.len() == 0 {
        Seq::<Seq<char>>::empty()
    } else {
        let p = woman_ids(rs.drop_last(), w);
        if rs.last().len() >= 3 && rs.last()[2] == w {
            p.push(rs.last()[0])
        } else {
            p
        }
    }
}

/// The identifiers of rows whose code equals the man code but not the woman
/// code (the woman arm is checked first), in row order.
pub open spec fn man_ids(rs: Seq<Seq<Seq<char>>>, w: Seq<char>, m: Seq<char>) -> Seq<Seq<char>>
    decreases rs.len(),
{
    if rs.len() == 0 {
        Seq::<Seq<char>>::empty()
    } else {
        let p = man_ids(rs.drop_last(), w, m);
        if rs.last().len() >= 3 && rs.last()[2] != w && rs.last()[2] == m {
            p.push(rs.last()[0])
        } else {
            p
        }
    }
}

/// What building the membership sets yields: the two identifier lists, or a
/// malformed-row failure if any row has fewer than three fields.
pub open spec fn spec_build_members(rs: Seq<Seq<Seq<char>>>, w: Seq<char>, m: Seq<char>) -> Result<
    (Seq<Seq<char>>, Seq<Seq<char>>),
    BuildError,
> {
    if has_short_row(rs, 3) {
        Err(BuildError::MalformedRow)
    } else {
        Ok((woman_ids(rs, w), man_ids(rs, w, m)))
    }
}

/// Builds the woman-tagged and man-tagged identifier lists from the
/// category source.
pub fn build_members(rows: &Vec<Vec<String>>, woman_code: &String, man_code: &String) -> (r: Result<
    (Vec<String>, Vec<String>),
    BuildError,
>)
    ensures
        match r {
            Ok(sets) => spec_build_members(rows.deep_view(), woman_code@, man_code@)
                == Ok::<_, BuildError>((sets.0.deep_view(), sets.1.deep_view())),
            Err(e) => spec_build_members(rows.deep_view(), woman_code@, man_code@) == Err::<
                (Seq<Seq<char>>, Seq<Seq<char>>),
                _,
            >(e),
        },
{
    let ghost rs = rows.deep_view();
    let mut women: Vec<String> = Vec::new();
    let mut men: Vec<String> = Vec::new();
    let mut i: usize = 0;
    while i < rows.len()
        invariant
            rs == rows.deep_view(),
            rs.len() == rows@.len(),
            0 <= i <= rows@.len(),
            forall|j: int| 0 <= j < i ==> (#[trigger] rs[j]).len() >= 3,
            women.deep_view() == woman_ids(rs.take(i as int), woman_code@),
            men.deep_view() == man_ids(rs.take(i as int), woman_code@, man_code@),
        decreases rows@.len() - i,
    {
        proof {
            lemma_table_view(rows, i as int);
            assert(rs.take(i + 1).drop_last() =~= rs.take(i as int));
            assert(rs.take(i + 1).last() == rs[i as int]);
        }
        let row = &rows[i];
        if row.len() < 3 {
            assert(has_short_row(rs, 3));
            return Err(BuildError::MalformedRow);
        }
        let ghost old_women = women.deep_view();
        let ghost old_men = men.deep_view();
        if row[2] == *woman_code {
            women.push(row[0].clone());
            proof {
                assert(women.deep_view() =~= old_women.push(rs[i as int][0]));
            }
        } else if row[2] == *man_code {
            men.push(row[0].clone());
            proof {
                assert(men.deep_view() =~= old_men.push(rs[i as int][0]));
            }
        }
        i = i + 1;
    }
    proof {
        assert(rs.take(rs.len() as int) =~= rs);
        assert(!has_short_row(rs, 3));
    }
    Ok((women, men))
}

/// The identifier list with every repeat dropped: the first occurrence of
/// each identifier survives, in order.
pub open spec fn spec_dedup(s: Seq<Seq<char>>) -> Seq<Seq<char>>
    decreases s.len(),
{
    if s.len() == 0 {
        Seq::<Seq<char>>::empty()
    } else {
        let p = spec_dedup(s.drop_last());
        if s.drop_last().contains(s.last()) {
            p
        } else {
            p.push(s.last())
        }
    }
}

/// De-duplication keeps exactly the identifiers of the input and never
/// repeats one.
pub proof fn lemma_dedup_props(s: Seq<Seq<char>>)
    ensures
        forall|x: Seq<char>| spec_dedup(s).contains(x) <==> s.contains(x),
        forall|i: int, j: int|
            0 <= i < j < spec_dedup(s).len() ==> spec_dedup(s)[i] != spec_dedup(s)[j],
    decreases s.len(),
{
    if s.len() > 0 {
        lemma_dedup_props(s.drop_last());
        let p = spec_dedup(s.drop_last());
        assert forall|x: Seq<char>| spec_dedup(s).contains(x) <==> s.contains(x) by {
            let d = spec_dedup(s);
            if d.contains(x) {
                let q = choose|q: int| 0 <= q < d.len() && d[q] == x;
                if q < p.len() {
                    assert(p[q] == x);
                    assert(p.contains(x));
                    assert(s.drop_last().contains(x));
                    let k = choose|k: int|
                        0 <= k < s.drop_last().len() && #[trigger] s.drop_last()[k] == x;
                    assert(s[k] == x);
                    assert(s.contains(x));
                } else {
                    assert(x == s.last());
                    assert(s[s.len() - 1] == x);
                    assert(s.contains(x));
                }
            }
            if s.contains(x) {
                let k = choose|k: int| 0 <= k < s.len() && #[trigger] s[k] == x;
                if k < s.len() - 1 {
                    assert(s.drop_last()[k] == x);
                    assert(s.drop_last().contains(x));
                    assert(p.contains(x));
                    let q = choose|q: int| 0 <= q < p.len() && #[trigger] p[q] == x;
                    assert(d[q] == x);
                    assert(d.contains(x));
                } else {
                    assert(x == s.last());
                    if s.drop_last().contains(s.last()) {
                        assert(p.contains(x));
                        let q = choose|q: int| 0 <= q < p.len() && #[trigger] p[q] == x;
                        assert(d[q] == x);
                        assert(d.contains(x));
                    } else {
                        assert(d[d.len() - 1] == x);
                        assert(d.contains(x));
                    }
                }
            }
        }
    }
}

/// Whether `x` occurs among the identifiers.
fn contains_str(v: &Vec<String>, x: &String) -> (b: bool)
    ensures
        b == v.deep_view().contains(x@),
{
    let mut i: usize = 0;
    while i < v.len()
        invariant
            0 <= i <= v@.len(),
            forall|k: int| 0 <= k < i ==> #[trigger] v.deep_view()[k] != x@,
        decreases v@.len() - i,
    {
        assert(v.deep_view()[i as int] == v@[i as int]@);
        if v[i] == *x {
            assert(v.deep_view().contains(x@));
            return true;
        }
        i = i + 1;
    }
    false
}

/// Drops repeated identifiers, keeping the first occurrence of each.
pub fn dedup_ids(ids: &Vec<String>) -> (out: Vec<String>)
    ensures
        out.deep_view() == spec_dedup(ids.deep_view()),
{
    let ghost s = ids.deep_view();
    let mut out: Vec<String> = Vec::new();
    let mut i: usize = 0;
    while i < ids.len()
        invariant
            s == ids.deep_view(),
            s.len() == ids@.len(),
            0 <= i <= ids@.len(),
            out.deep_view() == spec_dedup(s.take(i as int)),
        decreases ids@.len() - i,
    {
        proof {
            assert(ids.deep_view()[i as int] == ids@[i as int]@);
            assert(s.take(i + 1).drop_last() =~= s.take(i as int));
            assert(s.take(i + 1).last() == s[i as int]);
            lemma_dedup_props(s.take(i as int));
        }
        let ghost old_out = out.deep_view();
        if !contains_str(&out, &ids[i]) {
            out.push(ids[i].clone());
            proof {
                assert(out.deep_view() =~= old_out.push(s[i as int]));
            }
        }
        i = i + 1;
    }
    proof {
        assert(s.take(s.len() as int) =~= s);
    }
    out
}

} // verus!
