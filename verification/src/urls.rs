//! The image URL index.
//!
//! Each row of the image source is `(imageId, url, ...)`; only the first two
//! fields are significant. The index maps each identifier to its URL. An
//! identifier seen twice is dataset corruption and aborts construction with
//! [`BuildError::DuplicateImageId`], whatever the second URL says.

use vstd::prelude::*;
use crate::rows::{BuildError, has_short_row, lemma_table_view};

verus! {

/// Paired views of an entry list.
pub open spec fn entry_views(s: Seq<(String, String)>) -> Seq<(Seq<char>, Seq<char>)> {
    s.map_values(|p: (String, String)| (p.0@, p.1@))
}

/// Whether `id` is among the keys of the entry list.
pub open spec fn spec_contains_id(s: Seq<(Seq<char>, Seq<char>)>, id: Seq<char>) -> bool {
    exists|i: int| 0 <= i < s.len() && (#[trigger] s[i]).0 == id
}

/// The value of the first entry keyed `id`, if any.
pub open spec fn spec_lookup(s: Seq<(Seq<char>, Seq<char>)>, id: Seq<char>) -> Option<Seq<char>>
    decreases s.len(),
{
    if s.len() == 0 {
        None
    } else if s[0].0 == id {
        Some(s[0].1)
    } else {
        spec_lookup(s.skip(1), id)
    }
}

/// What building the index from `rs` on top of `acc` yields: each row adds
/// `(imageId, url)`, a short row is malformed, and a repeated identifier is
/// a duplicate-identifier failure at the repeating row.
pub open spec fn spec_build_urls_from(
    acc: Seq<(Seq<char>, Seq<char>)>,
    rs: Seq<Seq<Seq<char>>>,
) -> Result<Seq<(Seq<char>, Seq<char>)>, BuildError>
    decreases rs.len(),
{
    if rs.len() == 0 {
        Ok(acc)
    } else if rs[0].len() < 2 {
        Err(BuildError::MalformedRow)
    } else if spec_contains_id(acc, rs[0][0]) {
        Err(BuildError::DuplicateImageId)
    } else {
        spec_build_urls_from(acc.push((rs[0][0], rs[0][1])), rs.skip(1))
    }
}

/// What building the index from the whole table yields.
pub open spec fn spec_build_urls(rs: Seq<Seq<Seq<char>>>) -> Result<
    Seq<(Seq<char>, Seq<char>)>,
    BuildError,
> {
    spec_build_urls_from(Seq::empty(), rs)
}

/// Mapping from image identifier to source URL, identifiers unique.
#[derive(Debug)]
pub struct UrlIndex {
    pub entries: Vec<(String, String)>,
}

impl UrlIndex {
    /// The entry list as paired views, in insertion order.
    pub open spec fn view_entries(&self) -> Seq<(Seq<char>, Seq<char>)> {
        entry_views(self.entries@)
    }

    /// No identifier occurs twice.
    pub open spec fn wf(&self) -> bool {
        forall|i: int, j: int|
            0 <= i < j < self.view_entries().len() ==> (#[trigger] self.view_entries()[i]).0 != (
            #[trigger] self.view_entries()[j]).0
    }

    /// Looks an identifier up, yielding its URL if the index holds one.
    pub fn lookup(&self, id: &String) -> (r: Option<String>)
        ensures
            match r {
                Some(url) => spec_lookup(self.view_entries(), id@) == Some(url@),
                None => spec_lookup(self.view_entries(), id@) is None,
            },
    {
        let mut i: usize = 0;
        proof {
            assert(self.view_entries().skip(0) =~= self.view_entries());
        }
        while i < self.entries.len()
            invariant
                0 <= i <= self.entries@.len(),
                spec_lookup(self.view_entries(), id@) == spec_lookup(
                    self.view_entries().skip(i as int),
                    id@,
                ),
            decreases self.entries@.len() - i,
        {
            proof {
                let ghost p = self.entries@[i as int];
                assert(self.view_entries()[i as int] == (p.0@, p.1@));
            }
            if self.entries[i].0 == *id {
                return Some(self.entries[i].1.clone());
            }
            proof {
                assert(self.view_entries().skip(i as int).skip(1) =~= self.view_entries().skip(
                    i + 1,
                ));
                assert(self.view_entries().skip(i as int)[0] == self.view_entries()[i as int]);
            }
            i = i + 1;
        }
        proof {
            assert(self.view_entries().skip(i as int) =~= Seq::<(Seq<char>, Seq<char>)>::empty());
        }
        None
    }
}

/// Whether an identifier is already among the entries.
fn contains_id(entries: &Vec<(String, String)>, id: &String) -> (b: bool)
    ensures
        b == spec_contains_id(entry_views(entries@), id@),
{
    let mut i: usize = 0;
    while i < entries.len()
        invariant
            0 <= i <= entries@.len(),
            forall|k: int| 0 <= k < i ==> (#[trigger] entry_views(entries@)[k]).0 != id@,
        decreases entries@.len() - i,
    {
        proof {
            let ghost p = entries@[i as int];
            assert(entry_views(entries@)[i as int] == (p.0@, p.1@));
        }
        if entries[i].0 == *id {
            return true;
        }
        i = i + 1;
    }
    false
}

/// Builds the URL index from the image source: `imageId -> url`, aborting
/// on a short row or on an identifier seen twice.
pub fn build_url_index(rows: &Vec<Vec<String>>) -> (r: Result<UrlIndex, BuildError>)
    ensures
        match r {
            Ok(idx) => idx.wf() && spec_build_urls(rows.deep_view()) == Ok::<_, BuildError>(
                idx.view_entries(),
            ),
            Err(e) => spec_build_urls(rows.deep_view()) == Err::<
                Seq<(Seq<char>, Seq<char>)>,
                _,
            >(e),
        },
{
    let ghost rs = rows.deep_view();
    let mut entries: Vec<(String, String)> = Vec::new();
    let mut i: usize = 0;
    proof {
        assert(entry_views(entries@) =~= Seq::<(Seq<char>, Seq<char>)>::empty());
        assert(rs.skip(0) =~= rs);
    }
    while i < rows.len()
        invariant
            rs == rows.deep_view(),
            rs.len() == rows@.len(),
            0 <= i <= rows@.len(),
            spec_build_urls(rs) == spec_build_urls_from(entry_views(entries@), rs.skip(i as int)),
            forall|a: int, b: int|
                0 <= a < b < entry_views(entries@).len() ==> (#[trigger] entry_views(entries@)[a]).0
                    != (#[trigger] entry_views(entries@)[b]).0,
        decreases rows@.len() - i,
    {
        proof {
            lemma_table_view(rows, i as int);
            assert(rs.skip(i as int)[0] == rs[i as int]);
        }
        let row = &rows[i];
        if row.len() < 2 {
            return Err(BuildError::MalformedRow);
        }
        if contains_id(&entries, &row[0]) {
            return Err(BuildError::DuplicateImageId);
        }
        let ghost old_entries = entries@;
        entries.push((row[0].clone(), row[1].clone()));
        proof {
            assert(entry_views(entries@) =~= entry_views(old_entries).push(
                (rs[i as int][0], rs[i as int][1]),
            ));
            assert(rs.skip(i as int).skip(1) =~= rs.skip(i + 1));
        }
        i = i + 1;
    }
    proof {
        assert(rs.skip(i as int) =~= Seq::<Seq<Seq<char>>>::empty());
    }
    Ok(UrlIndex { entries })
}

/// A row whose identifier is already indexed makes construction fail with a
/// duplicate-identifier error.
pub proof fn lemma_id_in_acc_fails(
    acc: Seq<(Seq<char>, Seq<char>)>,
    rs: Seq<Seq<Seq<char>>>,
    k: int,
)
    requires
        !has_short_row(rs, 2),
        0 <= k < rs.len(),
        spec_contains_id(acc, rs[k][0]),
    ensures
        spec_build_urls_from(acc, rs) == Err::<Seq<(Seq<char>, Seq<char>)>, _>(
            BuildError::DuplicateImageId,
        ),
    decreases rs.len(),
{
    assert(rs[0].len() >= 2);
    if !spec_contains_id(acc, rs[0][0]) {
        assert(k > 0);
        let acc2 = acc.push((rs[0][0], rs[0][1]));
        assert(spec_contains_id(acc2, rs[k][0])) by {
            let w = choose|w: int| 0 <= w < acc.len() && (#[trigger] acc[w]).0 == rs[k][0];
            assert(acc2[w].0 == rs[k][0]);
        }
        assert(rs.skip(1)[k - 1] == rs[k]);
        assert(!has_short_row(rs.skip(1), 2)) by {
            assert forall|q: int| 0 <= q < rs.skip(1).len() implies (#[trigger] rs.skip(1)[q]).len()
                >= 2 by {
                assert(rs.skip(1)[q] == rs[q + 1]);
            }
        }
        lemma_id_in_acc_fails(acc2, rs.skip(1), k - 1);
    }
}

/// A table that repeats an image identifier, with or without the same URL,
/// makes construction fail with a duplicate-identifier error.
pub proof fn lemma_duplicate_id_fails(
    acc: Seq<(Seq<char>, Seq<char>)>,
    rs: Seq<Seq<Seq<char>>>,
    a: int,
    b: int,
)
    requires
        !has_short_row(rs, 2),
        0 <= a < b < rs.len(),
        rs[a][0] == rs[b][0],
    ensures
        spec_build_urls_from(acc, rs) == Err::<Seq<(Seq<char>, Seq<char>)>, _>(
            BuildError::DuplicateImageId,
        ),
    decreases rs.len(),
{
    assert(rs[0].len() >= 2);
    if !spec_contains_id(acc, rs[0][0]) {
        let acc2 = acc.push((rs[0][0], rs[0][1]));
        assert(!has_short_row(rs.skip(1), 2)) by {
            assert forall|q: int| 0 <= q < rs.skip(1).len() implies (#[trigger] rs.skip(1)[q]).len()
                >= 2 by {
                assert(rs.skip(1)[q] == rs[q + 1]);
            }
        }
        if a == 0 {
            assert(acc2[acc2.len() - 1].0 == rs[b][0]);
            assert(rs.skip(1)[b - 1] == rs[b]);
            assert(spec_contains_id(acc2, rs.skip(1)[b - 1][0]));
            lemma_id_in_acc_fails(acc2, rs.skip(1), b - 1);
        } else {
            assert(rs.skip(1)[a - 1] == rs[a]);
            assert(rs.skip(1)[b - 1] == rs[b]);
            lemma_duplicate_id_fails(acc2, rs.skip(1), a - 1, b - 1);
        }
    }
}

} // verus!
