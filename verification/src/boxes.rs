//! The bounding-box index.
//!
//! Each row is `(imageId, ..., labelCode, confidence, xMin, xMax, yMin,
//! yMax)`. A row whose label code matches neither resolved code is discarded
//! and leaves no trace in the index. A matching row must parse all five
//! numeric fields as unit-interval fractions, else construction fails with
//! [`BuildError::MalformedRow`]. Regions are grouped by image identifier in
//! order of first appearance, each group in row order.

use vstd::prelude::*;
use crate::crop::{PersonLabel, Region};
use crate::fixed::spec_parse_unit;
use crate::fixed::parse_unit_frac;
use crate::rows::{BuildError, lemma_table_view};

verus! {

/// Paired views of a box entry list.
pub open spec fn box_entry_views(s: Seq<(String, Vec<Region>)>) -> Seq<(Seq<char>, Seq<Region>)> {
    s.map_values(|p: (String, Vec<Region>)| (p.0@, p.1@))
}

/// Every region of the list lies in the unit interval.
pub open spec fn regions_wf(rs: Seq<Region>) -> bool {
    forall|j: int| 0 <= j < rs.len() ==> (#[trigger] rs[j]).wf()
}

/// The region a matching box row describes, if its numeric fields parse:
/// the woman label when the code equals the woman code, else the man label.
pub open spec fn spec_parse_region(row: Seq<Seq<char>>, w: Seq<char>, m: Seq<char>) -> Option<
    Region,
> {
    let c = spec_parse_unit(row[3]);
    let x0 = spec_parse_unit(row[4]);
    let x1 = spec_parse_unit(row[5]);
    let y0 = spec_parse_unit(row[6]);
    let y1 = spec_parse_unit(row[7]);
    if c is Some && x0 is Some && x1 is Some && y0 is Some && y1 is Some {
        Some(
            Region {
                label: if row[2] == w {
                    PersonLabel::Woman
                } else {
                    PersonLabel::Man
                },
                confidence: c.unwrap(),
                x_min: x0.unwrap(),
                x_max: x1.unwrap(),
                y_min: y0.unwrap(),
                y_max: y1.unwrap(),
            },
        )
    } else {
        None
    }
}

/// The entry list with `reg` appended to the group of `id`: to the first
/// entry so keyed, or as a new group at the end.
pub open spec fn spec_append_region(
    acc: Seq<(Seq<char>, Seq<Region>)>,
    id: Seq<char>,
    reg: Region,
) -> Seq<(Seq<char>, Seq<Region>)>
    decreases acc.len(),
{
    if acc.len() == 0 {
        seq![(id, seq![reg])]
    } else if acc[0].0 == id {
        seq![(acc[0].0, acc[0].1.push(reg))] + acc.skip(1)
    } else {
        seq![acc[0]] + spec_append_region(acc.skip(1), id, reg)
    }
}

/// What building the box index from `rs` on top of `acc` yields. A row with
/// fewer than three fields is malformed; a row whose label code matches
/// neither resolved code is discarded; a matching row must have eight fields
/// whose numeric ones parse, and appends its region to its image's group.
pub open spec fn spec_build_boxes_from(
    acc: Seq<(Seq<char>, Seq<Region>)>,
    rs: Seq<Seq<Seq<char>>>,
    w: Seq<char>,
    m: Seq<char>,
) -> Result<Seq<(Seq<char>, Seq<Region>)>, BuildError>
    decreases rs.len(),
{
    if rs.len() == 0 {
        Ok(acc)
    } else if rs[0].len() < 3 {
        Err(BuildError::MalformedRow)
    } else if rs[0][2] != w && rs[0][2] != m {
        spec_build_boxes_from(acc, rs.skip(1), w, m)
    } else if rs[0].len() < 8 {
        Err(BuildError::MalformedRow)
    } else {
        match spec_parse_region(rs[0], w, m) {
            None => Err(BuildError::MalformedRow),
            Some(reg) => spec_build_boxes_from(
                spec_append_region(acc, rs[0][0], reg),
                rs.skip(1),
                w,
                m,
            ),
        }
    }
}

/// What building the box index from the whole table yields.
pub open spec fn spec_build_boxes(rs: Seq<Seq<Seq<char>>>, w: Seq<char>, m: Seq<char>) -> Result<
    Seq<(Seq<char>, Seq<Region>)>,
    BuildError,
> {
    spec_build_boxes_from(Seq::empty(), rs, w, m)
}

/// The region group of the first entry keyed `id`, if any.
pub open spec fn spec_lookup_boxes(s: Seq<(Seq<char>, Seq<Region>)>, id: Seq<char>) -> Option<
    Seq<Region>,
>
    decreases s.len(),
{
    if s.len() == 0 {
        None
    } else if s[0].0 == id {
        Some(s[0].1)
    } else {
        spec_lookup_boxes(s.skip(1), id)
    }
}

/// Appending to a group rewrites exactly the first entry keyed `id`.
pub proof fn lemma_append_region_at(
    acc: Seq<(Seq<char>, Seq<Region>)>,
    id: Seq<char>,
    reg: Region,
    k: int,
)
    requires
        0 <= k < acc.len(),
        acc[k].0 == id,
        forall|j: int| 0 <= j < k ==> (#[trigger] acc[j]).0 != id,
    ensures
        spec_append_region(acc, id, reg) == acc.update(k, (acc[k].0, acc[k].1.push(reg))),
    decreases acc.len(),
{
    if k == 0 {
        assert(spec_append_region(acc, id, reg) =~= acc.update(
            0,
            (acc[0].0, acc[0].1.push(reg)),
        ));
    } else {
        assert(acc[0].0 != id);
        assert forall|j: int| 0 <= j < k - 1 implies (#[trigger] acc.skip(1)[j]).0 != id by {
            assert(acc.skip(1)[j] == acc[j + 1]);
        }
        assert(acc.skip(1)[k - 1] == acc[k]);
        lemma_append_region_at(acc.skip(1), id, reg, k - 1);
        assert(spec_append_region(acc, id, reg) =~= acc.update(
            k,
            (acc[k].0, acc[k].1.push(reg)),
        ));
    }
}

/// Appending under a fresh identifier adds a new group at the end.
pub proof fn lemma_append_region_new(acc: Seq<(Seq<char>, Seq<Region>)>, id: Seq<char>, reg: Region)
    requires
        forall|j: int| 0 <= j < acc.len() ==> (#[trigger] acc[j]).0 != id,
    ensures
        spec_append_region(acc, id, reg) == acc.push((id, seq![reg])),
    decreases acc.len(),
{
    if acc.len() == 0 {
        assert(spec_append_region(acc, id, reg) =~= acc.push((id, seq![reg])));
    } else {
        assert forall|j: int| 0 <= j < acc.skip(1).len() implies (#[trigger] acc.skip(1)[j]).0
            != id by {
            assert(acc.skip(1)[j] == acc[j + 1]);
        }
        lemma_append_region_new(acc.skip(1), id, reg);
        assert(spec_append_region(acc, id, reg) =~= acc.push((id, seq![reg])));
    }
}

/// Mapping from image identifier to its regions, in order of first
/// appearance, each group in row order.
#[derive(Debug)]
pub struct BoxIndex {
    pub entries: Vec<(String, Vec<Region>)>,
}

impl BoxIndex {
    /// The entry list as paired views.
    pub open spec fn view_entries(&self) -> Seq<(Seq<char>, Seq<Region>)> {
        box_entry_views(self.entries@)
    }

    /// Every stored region lies in the unit interval.
    pub open spec fn wf(&self) -> bool {
        forall|i: int|
            0 <= i < self.view_entries().len() ==> regions_wf((#[trigger] self.view_entries()[i]).1)
    }

    /// Looks an identifier up, yielding a copy of its region group if the
    /// index holds one.
    pub fn lookup(&self, id: &String) -> (r: Option<Vec<Region>>)
        requires
            self.wf(),
        ensures
            match r {
                Some(regs) => spec_lookup_boxes(self.view_entries(), id@) == Some(regs@)
                    && regions_wf(regs@),
                None => spec_lookup_boxes(self.view_entries(), id@) is None,
            },
    {
        let mut i: usize = 0;
        proof {
            assert(self.view_entries().skip(0) =~= self.view_entries());
        }
        while i < self.entries.len()
            invariant
                self.wf(),
                0 <= i <= self.entries@.len(),
                spec_lookup_boxes(self.view_entries(), id@) == spec_lookup_boxes(
                    self.view_entries().skip(i as int),
                    id@,
                ),
            decreases self.entries@.len() - i,
        {
            proof {
                let ghost p = self.entries@[i as int];
                assert(self.view_entries()[i as int] == (p.0@, p.1@));
            }
            if self.entries[i].0 == *id {
                let regs = copy_regions(&self.entries[i].1);
                return Some(regs);
            }
            proof {
                assert(self.view_entries().skip(i as int).skip(1) =~= self.view_entries().skip(
                    i + 1,
                ));
                assert(self.view_entries().skip(i as int)[0] == self.view_entries()[i as int]);
            }
            i = i + 1;
        }
        proof {
            assert(self.view_entries().skip(i as int) =~= Seq::<(Seq<char>, Seq<Region>)>::empty());
        }
        None
    }
}

/// Copies a region list.
fn copy_regions(v: &Vec<Region>) -> (out: Vec<Region>)
    ensures
        out@ == v@,
{
    let mut out: Vec<Region> = Vec::new();
    let mut i: usize = 0;
    while i < v.len()
        invariant
            0 <= i <= v@.len(),
            out@ == v@.take(i as int),
        decreases v@.len() - i,
    {
        out.push(v[i]);
        proof {
            assert(v@.take(i + 1) =~= v@.take(i as int).push(v@[i as int]));
        }
        i = i + 1;
    }
    proof {
        assert(v@.take(v@.len() as int) =~= v@);
    }
    out
}

/// Position of the first entry keyed `id`, if any.
fn find_entry(entries: &Vec<(String, Vec<Region>)>, id: &String) -> (r: Option<usize>)
    ensures
        match r {
            Some(k) => k < entries@.len() && box_entry_views(entries@)[k as int].0 == id@ && forall|
                j: int,
            | 0 <= j < k ==> (#[trigger] box_entry_views(entries@)[j]).0 != id@,
            None => forall|j: int|
                0 <= j < entries@.len() ==> (#[trigger] box_entry_views(entries@)[j]).0 != id@,
        },
{
    let mut i: usize = 0;
    while i < entries.len()
        invariant
            0 <= i <= entries@.len(),
            forall|j: int| 0 <= j < i ==> (#[trigger] box_entry_views(entries@)[j]).0 != id@,
        decreases entries@.len() - i,
    {
        proof {
            let ghost p = entries@[i as int];
            assert(box_entry_views(entries@)[i as int] == (p.0@, p.1@));
        }
        if entries[i].0 == *id {
            return Some(i);
        }
        i = i + 1;
    }
    None
}

/// Builds the box index from the bounding-box source, discarding rows whose
/// label code matches neither resolved code and failing fast on a malformed
/// row.
pub fn build_box_index(rows: &Vec<Vec<String>>, woman_code: &String, man_code: &String) -> (r:
    Result<BoxIndex, BuildError>)
    ensures
        match r {
            Ok(idx) => idx.wf() && spec_build_boxes(rows.deep_view(), woman_code@, man_code@)
                == Ok::<_, BuildError>(idx.view_entries()),
            Err(e) => spec_build_boxes(rows.deep_view(), woman_code@, man_code@) == Err::<
                Seq<(Seq<char>, Seq<Region>)>,
                _,
            >(e),
        },
{
    let ghost rs = rows.deep_view();
    let ghost w = woman_code@;
    let ghost m = man_code@;
    let mut entries: Vec<(String, Vec<Region>)> = Vec::new();
    let mut i: usize = 0;
    proof {
        assert(box_entry_views(entries@) =~= Seq::<(Seq<char>, Seq<Region>)>::empty());
        assert(rs.skip(0) =~= rs);
    }
    while i < rows.len()
        invariant
            rs == rows.deep_view(),
            rs.len() == rows@.len(),
            w == woman_code@,
            m == man_code@,
            0 <= i <= rows@.len(),
            spec_build_boxes(rs, w, m) == spec_build_boxes_from(
                box_entry_views(entries@),
                rs.skip(i as int),
                w,
                m,
            ),
            forall|t: int|
                0 <= t < box_entry_views(entries@).len() ==> regions_wf(
                    (#[trigger] box_entry_views(entries@)[t]).1,
                ),
        decreases rows@.len() - i,
    {
        proof {
            lemma_table_view(rows, i as int);
            assert(rs.skip(i as int)[0] == rs[i as int]);
            assert(rs.skip(i as int).skip(1) =~= rs.skip(i + 1));
        }
        let row = &rows[i];
        if row.len() < 3 {
            return Err(BuildError::MalformedRow);
        }
        if row[2] == *woman_code || row[2] == *man_code {
            if row.len() < 8 {
                return Err(BuildError::MalformedRow);
            }
            let conf = parse_unit_frac(row[3].as_str());
            let x0 = parse_unit_frac(row[4].as_str());
            let x1 = parse_unit_frac(row[5].as_str());
            let y0 = parse_unit_frac(row[6].as_str());
            let y1 = parse_unit_frac(row[7].as_str());
            match (conf, x0, x1, y0, y1) {
                (Some(conf), Some(x0), Some(x1), Some(y0), Some(y1)) => {
                    let label = if row[2] == *woman_code {
                        PersonLabel::Woman
                    } else {
                        PersonLabel::Man
                    };
                    let region = Region {
                        label,
                        confidence: conf,
                        x_min: x0,
                        x_max: x1,
                        y_min: y0,
                        y_max: y1,
                    };
                    proof {
                        assert(spec_parse_region(rs[i as int], w, m) == Some(region));
                    }
                    let ghost old_view = box_entry_views(entries@);
                    match find_entry(&entries, &row[0]) {
                        None => {
                            let mut group: Vec<Region> = Vec::new();
                            group.push(region);
                            entries.push((row[0].clone(), group));
                            proof {
                                lemma_append_region_new(old_view, rs[i as int][0], region);
                                assert(box_entry_views(entries@) =~= old_view.push(
                                    (rs[i as int][0], seq![region]),
                                ));
                            }
                        },
                        Some(k) => {
                            let mut pair = entries.remove(k);
                            pair.1.push(region);
                            entries.insert(k, pair);
                            proof {
                                lemma_append_region_at(old_view, rs[i as int][0], region, k as int);
                                assert(box_entry_views(entries@) =~= old_view.update(
                                    k as int,
                                    (old_view[k as int].0, old_view[k as int].1.push(region)),
                                ));
                            }
                        },
                    }
                },
                _ => {
                    return Err(BuildError::MalformedRow);
                },
            }
        }
        i = i + 1;
    }
    proof {
        assert(rs.skip(i as int) =~= Seq::<Seq<Seq<char>>>::empty());
    }
    Ok(BoxIndex { entries })
}

/// A row whose label code matches neither resolved code has no influence on
/// the index: removing it changes nothing.
pub proof fn lemma_box_other_rows_ignored(
    acc: Seq<(Seq<char>, Seq<Region>)>,
    rs: Seq<Seq<Seq<char>>>,
    w: Seq<char>,
    m: Seq<char>,
    i: int,
)
    requires
        0 <= i < rs.len(),
        rs[i].len() >= 3,
        rs[i][2] != w,
        rs[i][2] != m,
    ensures
        spec_build_boxes_from(acc, rs.remove(i), w, m) == spec_build_boxes_from(acc, rs, w, m),
    decreases rs.len(),
{
    rs.remove_ensures(i);
    if i == 0 {
        assert(rs.remove(0) =~= rs.skip(1));
    } else {
        assert(rs.remove(i)[0] == rs[0]);
        assert(rs.remove(i).skip(1) =~= rs.skip(1).remove(i - 1));
        assert(rs.skip(1)[i - 1] == rs[i]);
        if rs[0].len() < 3 {
        } else if rs[0][2] != w && rs[0][2] != m {
            lemma_box_other_rows_ignored(acc, rs.skip(1), w, m, i - 1);
        } else if rs[0].len() < 8 {
        } else {
            match spec_parse_region(rs[0], w, m) {
                None => {},
                Some(reg) => {
                    lemma_box_other_rows_ignored(
                        spec_append_region(acc, rs[0][0], reg),
                        rs.skip(1),
                        w,
                        m,
                        i - 1,
                    );
                },
            }
        }
    }
}

} // verus!
