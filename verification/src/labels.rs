//! Label resolution over the vocabulary source.
//!
//! Each vocabulary row is `(categoryCode, labelName, ...)`. Resolution scans
//! the whole table: the first row named `Woman` fixes the woman code, the
//! first named `Man` fixes the man code, later matches are ignored, and a
//! missing name is a fatal [`BuildError::MissingLabel`]. A row with fewer
//! than two fields is a fatal [`BuildError::MalformedRow`].

use vstd::prelude::*;
use vstd::string::StringExecFns;
use crate::rows::{BuildError, has_short_row, lemma_table_view};

verus! {

/// The label name whose code marks woman-tagged annotations.
pub open spec fn spec_woman_name() -> Seq<char> {
    "Woman"@
}

/// The label name whose code marks man-tagged annotations.
pub open spec fn spec_man_name() -> Seq<char> {
    "Man"@
}

/// Whether a vocabulary row carries `name` in its label-name field.
pub open spec fn row_names(row: Seq<Seq<char>>, name: Seq<char>) -> bool {
    row.len() >= 2 && row[1] == name
}

/// The category code of the first row named `name`, if any.
pub open spec fn first_code(rs: Seq<Seq<Seq<char>>>, name: Seq<char>) -> Option<Seq<char>>
    decreases rs.len(),
{
    if rs.len() == 0 {
        None
    } else if row_names(rs[0], name) {
        Some(rs[0][0])
    } else {
        first_code(rs.skip(1), name)
    }
}

/// What resolving the vocabulary yields: the codes of the first rows named
/// `Woman` and `Man`, a malformed-row failure if any row is short, and a
/// missing-label failure if either name never occurs.
pub open spec fn spec_resolve_labels(rs: Seq<Seq<Seq<char>>>) -> Result<
    (Seq<char>, Seq<char>),
    BuildError,
> {
    if has_short_row(rs, 2) {
        Err(BuildError::MalformedRow)
    } else if first_code(rs, spec_woman_name()) is Some && first_code(rs, spec_man_name())
        is Some {
        Ok((first_code(rs, spec_woman_name()).unwrap(), first_code(rs, spec_man_name()).unwrap()))
    } else {
        Err(BuildError::MissingLabel)
    }
}

/// Extending a table by one row fixes a code only if none was fixed before:
/// first match wins.
pub proof fn lemma_first_code_push(rs: Seq<Seq<Seq<char>>>, row: Seq<Seq<char>>, name: Seq<char>)
    ensures
        first_code(rs.push(row), name) == if first_code(rs, name) is Some {
            first_code(rs, name)
        } else if row_names(row, name) {
            Some(row[0])
        } else {
            None::<Seq<char>>
        },
    decreases rs.len(),
{
    if rs.len() == 0 {
        assert(rs.push(row)[0] == row);
        assert(rs.push(row).skip(1) =~= Seq::<Seq<Seq<char>>>::empty());
    } else {
        assert(rs.push(row)[0] == rs[0]);
        assert(rs.push(row).skip(1) =~= rs.skip(1).push(row));
        lemma_first_code_push(rs.skip(1), row, name);
    }
}

/// Removing a row that does not carry `name` leaves the resolved code of
/// `name` unchanged.
pub proof fn lemma_first_code_remove(rs: Seq<Seq<Seq<char>>>, name: Seq<char>, i: int)
    requires
        0 <= i < rs.len(),
        !row_names(rs[i], name),
    ensures
        first_code(rs.remove(i), name) == first_code(rs, name),
    decreases rs.len(),
{
    rs.remove_ensures(i);
    if i == 0 {
        assert(rs.remove(0) =~= rs.skip(1));
    } else {
        assert(rs.remove(i)[0] == rs[0]);
        assert(rs.remove(i).skip(1) =~= rs.skip(1).remove(i - 1));
        lemma_first_code_remove(rs.skip(1), name, i - 1);
    }
}

/// Resolution is order-independent with respect to rows that name neither
/// label: removing such a row changes nothing.
pub proof fn lemma_resolve_ignores_other_rows(rs: Seq<Seq<Seq<char>>>, i: int)
    requires
        0 <= i < rs.len(),
        rs[i].len() >= 2,
        rs[i][1] != spec_woman_name(),
        rs[i][1] != spec_man_name(),
    ensures
        spec_resolve_labels(rs.remove(i)) == spec_resolve_labels(rs),
{
    rs.remove_ensures(i);
    lemma_first_code_remove(rs, spec_woman_name(), i);
    lemma_first_code_remove(rs, spec_man_name(), i);
    assert(has_short_row(rs.remove(i), 2) == has_short_row(rs, 2)) by {
        if has_short_row(rs.remove(i), 2) {
            let k = choose|k: int| 0 <= k < rs.remove(i).len() && (#[trigger] rs.remove(i)[k]).len()
                < 2;
            if k < i {
                assert(rs[k].len() < 2);
            } else {
                assert(rs[k + 1].len() < 2);
            }
        }
        if has_short_row(rs, 2) {
            let k = choose|k: int| 0 <= k < rs.len() && (#[trigger] rs[k]).len() < 2;
            if k < i {
                assert(rs.remove(i)[k].len() < 2);
            } else {
                assert(rs.remove(i)[k - 1].len() < 2);
            }
        }
    }
}

/// The view of an optional owned code.
pub open spec fn opt_code_view(o: Option<String>) -> Option<Seq<char>> {
    match o {
        Some(s) => Some(s@),
        None => None,
    }
}

/// Scans the vocabulary and resolves the woman and man category codes,
/// first match winning for each name.
pub fn resolve_labels(rows: &Vec<Vec<String>>) -> (r: Result<(String, String), BuildError>)
    ensures
        match r {
            Ok(codes) => spec_resolve_labels(rows.deep_view()) == Ok::<_, BuildError>(
                (codes.0@, codes.1@),
            ),
            Err(e) => spec_resolve_labels(rows.deep_view()) == Err::<(Seq<char>, Seq<char>), _>(e),
        },
{
    let ghost rs = rows.deep_view();
    proof {
        reveal_strlit("Woman");
        reveal_strlit("Man");
        assert(spec_woman_name().len() != spec_man_name().len());
    }
    let woman_name: String = String::from_str("Woman");
    let man_name: String = String::from_str("Man");
    let mut woman_code: Option<String> = None;
    let mut man_code: Option<String> = None;
    let mut i: usize = 0;
    while i < rows.len()
        invariant
            rs == rows.deep_view(),
            rs.len() == rows@.len(),
            0 <= i <= rows@.len(),
            woman_name@ == spec_woman_name(),
            man_name@ == spec_man_name(),
            spec_woman_name() != spec_man_name(),
            forall|j: int| 0 <= j < i ==> (#[trigger] rs[j]).len() >= 2,
            opt_code_view(woman_code) == first_code(rs.take(i as int), spec_woman_name()),
            opt_code_view(man_code) == first_code(rs.take(i as int), spec_man_name()),
        decreases rows@.len() - i,
    {
        proof {
            lemma_table_view(rows, i as int);
        }
        let row = &rows[i];
        if row.len() < 2 {
            assert(has_short_row(rs, 2));
            return Err(BuildError::MalformedRow);
        }
        proof {
            assert(rs.take(i + 1).drop_last() =~= rs.take(i as int));
            assert(rs.take(i + 1) =~= rs.take(i as int).push(rs[i as int]));
            lemma_first_code_push(rs.take(i as int), rs[i as int], spec_woman_name());
            lemma_first_code_push(rs.take(i as int), rs[i as int], spec_man_name());
        }
        if woman_code.is_none() && row[1] == woman_name {
            woman_code = Some(row[0].clone());
        } else if man_code.is_none() && row[1] == man_name {
            man_code = Some(row[0].clone());
        }
        i = i + 1;
    }
    proof {
        assert(rs.take(rs.len() as int) =~= rs);
        assert(!has_short_row(rs, 2));
    }
    match (woman_code, man_code) {
        (Some(w), Some(m)) => Ok((w, m)),
        _ => Err(BuildError::MissingLabel),
    }
}

} // verus!
