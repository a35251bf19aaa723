//! Shared shapes for the four tabular annotation sources.
//!
//! Every source is a sequence of rows, each row a sequence of string fields
//! already split on commas. Contracts speak of a row table through its deep
//! view, a `Seq<Seq<Seq<char>>>`.

use vstd::prelude::*;
use vstd::string::StrSliceExecFns;

verus! {

/// A fatal index-construction failure: the input data is corrupt or
/// incompatible, and the run must not reach the network stage.
#[derive(Clone, Copy, PartialEq, Eq, Structural, Debug)]
pub enum BuildError {
    /// The label vocabulary lacks one of the two required label names.
    MissingLabel,
    /// The image-URL source names the same image identifier twice.
    DuplicateImageId,
    /// A row is too short, or a numeric field does not parse.
    MalformedRow,
}

/// Whether some row of the table has fewer than `min` fields.
pub open spec fn has_short_row(rs: Seq<Seq<Seq<char>>>, min: int) -> bool {
    exists|i: int| 0 <= i < rs.len() && (#[trigger] rs[i]).len() < min
}

/// A line split at every comma: one field per comma-free stretch, in order.
/// An empty line is one empty field, and a trailing comma ends in one.
pub open spec fn spec_split_commas(s: Seq<char>) -> Seq<Seq<char>>
    decreases s.len(),
{
    if s.len() == 0 {
        seq![Seq::<char>::empty()]
    } else if s[0] == ',' {
        seq![Seq::<char>::empty()] + spec_split_commas(s.skip(1))
    } else {
        let rest = spec_split_commas(s.skip(1));
        seq![seq![s[0]] + rest[0]] + rest.skip(1)
    }
}

/// A comma-free line is a single field.
pub proof fn lemma_split_no_comma(s: Seq<char>)
    requires
        forall|i: int| 0 <= i < s.len() ==> #[trigger] s[i] != ',',
    ensures
        spec_split_commas(s) == seq![s],
    decreases s.len(),
{
    if s.len() == 0 {
        assert(s =~= Seq::<char>::empty());
        assert(spec_split_commas(s) =~= seq![s]);
    } else {
        assert forall|i: int| 0 <= i < s.skip(1).len() implies #[trigger] s.skip(1)[i] != ',' by {
            assert(s.skip(1)[i] == s[i + 1]);
        }
        lemma_split_no_comma(s.skip(1));
        let rest = spec_split_commas(s.skip(1));
        assert(rest[0] == s.skip(1));
        assert(seq![s[0]] + s.skip(1) =~= s);
        assert(rest.skip(1) =~= Seq::<Seq<char>>::empty());
        assert(spec_split_commas(s) == seq![seq![s[0]] + rest[0]] + rest.skip(1));
        assert(spec_split_commas(s) =~= seq![s]);
    }
}

/// Splitting cuts the first field at the first comma.
pub proof fn lemma_split_at_first_comma(s: Seq<char>, k: int)
    requires
        0 <= k < s.len(),
        s[k] == ',',
        forall|i: int| 0 <= i < k ==> #[trigger] s[i] != ',',
    ensures
        spec_split_commas(s) == seq![s.take(k)] + spec_split_commas(s.skip(k + 1)),
    decreases s.len(),
{
    if k == 0 {
        assert(s.take(0) =~= Seq::<char>::empty());
        assert(spec_split_commas(s) =~= seq![s.take(0)] + spec_split_commas(s.skip(1)));
    } else {
        assert forall|i: int| 0 <= i < k - 1 implies #[trigger] s.skip(1)[i] != ',' by {
            assert(s.skip(1)[i] == s[i + 1]);
        }
        assert(s.skip(1)[k - 1] == s[k]);
        lemma_split_at_first_comma(s.skip(1), k - 1);
        let rest = spec_split_commas(s.skip(1));
        assert(rest[0] == s.skip(1).take(k - 1));
        assert(seq![s[0]] + s.skip(1).take(k - 1) =~= s.take(k));
        assert(s.skip(1).skip(k) =~= s.skip(k + 1));
        assert(rest.skip(1) =~= spec_split_commas(s.skip(k + 1)));
        assert(spec_split_commas(s) =~= seq![s.take(k)] + spec_split_commas(s.skip(k + 1)));
    }
}

/// Splits one source line on commas into its fields.
pub fn split_commas(line: &str) -> (fields: Vec<String>)
    ensures
        fields.deep_view() == spec_split_commas(line@),
{
    let n = line.unicode_len();
    let mut fields: Vec<String> = Vec::new();
    let mut st: usize = 0;
    let mut i: usize = 0;
    proof {
        assert(line@.skip(0) =~= line@);
        assert(fields.deep_view() =~= Seq::<Seq<char>>::empty());
    }
    while i < n
        invariant
            n == line@.len(),
            0 <= st <= i <= n,
            spec_split_commas(line@) == fields.deep_view() + spec_split_commas(
                line@.skip(st as int),
            ),
            forall|q: int| st <= q < i ==> #[trigger] line@[q] != ',',
        decreases n - i,
    {
        let c = line.get_char(i);
        if c == ',' {
            let ghost old_fields = fields.deep_view();
            let field = line.substring_char(st, i);
            fields.push(field.to_owned());
            proof {
                let tail = line@.skip(st as int);
                assert forall|q: int| 0 <= q < i - st implies #[trigger] tail[q] != ',' by {
                    assert(tail[q] == line@[st + q]);
                }
                assert(tail[i - st] == line@[i as int]);
                lemma_split_at_first_comma(tail, i - st);
                assert(tail.take(i - st) =~= line@.subrange(st as int, i as int));
                assert(tail.skip(i - st + 1) =~= line@.skip(i + 1));
                assert(fields.deep_view() =~= old_fields.push(
                    line@.subrange(st as int, i as int),
                ));
                assert(fields.deep_view() + spec_split_commas(line@.skip(i + 1)) =~= old_fields + (
                seq![line@.subrange(st as int, i as int)] + spec_split_commas(line@.skip(i + 1))));
            }
            st = i + 1;
        }
        i = i + 1;
    }
    let ghost old_fields = fields.deep_view();
    let last = line.substring_char(st, n);
    fields.push(last.to_owned());
    proof {
        let tail = line@.skip(st as int);
        assert forall|q: int| 0 <= q < tail.len() implies #[trigger] tail[q] != ',' by {
            assert(tail[q] == line@[st + q]);
        }
        lemma_split_no_comma(tail);
        assert(line@.subrange(st as int, n as int) =~= tail);
        assert(fields.deep_view() =~= old_fields.push(tail));
        assert(fields.deep_view() =~= old_fields + seq![tail]);
    }
    fields
}

/// The deep view of a row table indexes through to the field views.
pub proof fn lemma_table_view(rows: &Vec<Vec<String>>, i: int)
    requires
        0 <= i < rows@.len(),
    ensures
        rows.deep_view().len() == rows@.len(),
        rows.deep_view()[i].len() == rows@[i]@.len(),
        forall|j: int|
            0 <= j < rows@[i]@.len() ==> #[trigger] rows.deep_view()[i][j] == rows@[i]@[j]@,
{
    assert(rows.deep_view()[i] == rows@[i].deep_view());
}

} // verus!
