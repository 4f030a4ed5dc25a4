//! The Cluster Assembler: drives the full parse of one input source, skipping
//! comment lines, decoding every data row through the Record Decoder, hoisting
//! the virtual-network id and region out of the first data row, and yielding a
//! completed `Cluster` or a classified error — never a partial aggregate.

use vstd::prelude::*;
use vstd::std_specs::cmp::PartialEqSpec;
use vstd::string::StrSliceExecFns;
use crate::error::ClusterError;
use crate::node::Node;
use crate::node::NodeView;
use crate::node::decode_fields_spec;
use crate::node::decode_node;
use crate::node::node_view_of_fields;
use crate::text::split_chars;
use crate::text::split_str;

verus! {

/// The aggregate result of one parse: every data row as a `Node`, in source
/// order, plus the network metadata of the first data row. Never constructed
/// with zero nodes, and not mutated after construction.
#[derive(Debug)]
pub struct Cluster {
    pub nodes: Vec<Node>,
    pub vpc: String,
    pub region: String,
    /// Always 1: "one logical grouping was parsed", not a count of distinct
    /// unit indices (a documented quirk of the format, preserved as-is).
    pub units: u32,
}

/// The mathematical value of a `Cluster`.
#[verifier::ext_equal]
pub ghost struct ClusterView {
    pub nodes: Seq<NodeView>,
    pub vpc: Seq<char>,
    pub region: Seq<char>,
    pub units: u32,
}

impl View for Cluster {
    type V = ClusterView;

    open spec fn view(&self) -> ClusterView {
        ClusterView {
            nodes: self.nodes.deep_view(),
            vpc: self.vpc@,
            region: self.region@,
            units: self.units,
        }
    }
}

impl Cluster {
    /// The invariant of every cluster the parse yields: at least one node —
    /// an input without data rows is a terminal error, never an empty
    /// aggregate — and a unit count of 1.
    pub open spec fn wf(self) -> bool {
        self@.nodes.len() >= 1 && self@.units == 1
    }
}

impl PartialEq for Cluster {
    /// Structural equality: same network metadata, same unit count, and the
    /// same node sequence, field for field and in the same order.
    fn eq(&self, other: &Cluster) -> (r: bool) {
        if self.units != other.units {
            return false;
        }
        if !(self.vpc == other.vpc) {
            return false;
        }
        if !(self.region == other.region) {
            return false;
        }
        if self.nodes.len() != other.nodes.len() {
            proof {
                assert(self.nodes.deep_view().len() == self.nodes@.len());
                assert(other.nodes.deep_view().len() == other.nodes@.len());
            }
            return false;
        }
        let mut i: usize = 0;
        while i < self.nodes.len()
            invariant
                0 <= i <= self.nodes.len(),
                self.nodes@.len() == other.nodes@.len(),
                forall|j: int|
                    0 <= j < i ==> self.nodes.deep_view()[j] == other.nodes.deep_view()[j],
            decreases self.nodes.len() - i,
        {
            if !(self.nodes[i] == other.nodes[i]) {
                proof {
                    assert(self.nodes.deep_view()[i as int] == self.nodes@[i as int]@);
                    assert(other.nodes.deep_view()[i as int] == other.nodes@[i as int]@);
                }
                return false;
            }
            i = i + 1;
        }
        proof {
            assert(self.nodes.deep_view() =~= other.nodes.deep_view());
        }
        true
    }
}

impl vstd::std_specs::cmp::PartialEqSpecImpl for Cluster {
    open spec fn obeys_eq_spec() -> bool {
        true
    }

    open spec fn eq_spec(&self, other: &Cluster) -> bool {
        self@ == other@
    }
}

/// A comment line: it starts with `#`.
pub open spec fn is_comment_line(l: Seq<char>) -> bool {
    l.len() > 0 && l[0] == '#'
}

/// A data row: a non-empty line that is not a comment.
pub open spec fn is_data_row(l: Seq<char>) -> bool {
    l.len() > 0 && l[0] != '#'
}

/// The lines of the input text.
pub open spec fn lines_of(s: Seq<char>) -> Seq<Seq<char>> {
    split_chars(s, '\n')
}

/// The comma-delimited fields of one row.
pub open spec fn fields_of(row: Seq<char>) -> Seq<Seq<char>> {
    split_chars(row, ',')
}

/// The subsequence of lines that are data rows, in order: comment lines and
/// empty lines are dropped before any row reaches the decoder.
pub open spec fn keep_data_rows(ls: Seq<Seq<char>>) -> Seq<Seq<char>>
    decreases ls.len(),
{
    if ls.len() == 0 {
        Seq::empty()
    } else if is_data_row(ls.last()) {
        keep_data_rows(ls.drop_last()).push(ls.last())
    } else {
        keep_data_rows(ls.drop_last())
    }
}

/// The data rows of the input text, in source order.
pub open spec fn data_rows_of(s: Seq<char>) -> Seq<Seq<char>> {
    keep_data_rows(lines_of(s))
}

/// Decoding all rows, fail-fast: the result is the decoded nodes in row
/// order, or the decode failure of the earliest bad row.
pub open spec fn decode_rows_spec(rows: Seq<Seq<char>>) -> Result<Seq<NodeView>, ClusterError>
    decreases rows.len(),
{
    if rows.len() == 0 {
        Ok(Seq::empty())
    } else {
        match decode_rows_spec(rows.drop_last()) {
            Ok(ns) => match decode_fields_spec(fields_of(rows.last())) {
                Ok(nv) => Ok(ns.push(nv)),
                Err(e) => Err(e),
            },
            Err(e) => Err(e),
        }
    }
}

/// The whole parse as a function of the data rows alone: `NoRecords` on zero
/// rows, the earliest decode failure otherwise, else the aggregate with the
/// vpc and region hoisted from positions 9 and 10 of the first row and a unit
/// count fixed at 1.
pub open spec fn parse_rows_spec(rows: Seq<Seq<char>>) -> Result<ClusterView, ClusterError> {
    if rows.len() == 0 {
        Err(ClusterError::NoRecords)
    } else {
        match decode_rows_spec(rows) {
            Ok(ns) => Ok(
                ClusterView {
                    nodes: ns,
                    vpc: fields_of(rows[0])[9],
                    region: fields_of(rows[0])[10],
                    units: 1,
                },
            ),
            Err(e) => Err(e),
        }
    }
}

/// What parsing the input text yields.
pub open spec fn parse_spec(s: Seq<char>) -> Result<ClusterView, ClusterError> {
    parse_rows_spec(data_rows_of(s))
}

/// `Result` of the assembler, lifted to views.
pub open spec fn cluster_result_view(r: Result<Cluster, ClusterError>) -> Result<
    ClusterView,
    ClusterError,
> {
    match r {
        Ok(c) => Ok(c@),
        Err(e) => Err(e),
    }
}

/// Keeping data rows distributes over concatenation of line sequences.
pub proof fn lemma_keep_data_rows_concat(a: Seq<Seq<char>>, b: Seq<Seq<char>>)
    ensures
        keep_data_rows(a + b) == keep_data_rows(a) + keep_data_rows(b),
    decreases b.len(),
{
    if b.len() == 0 {
        assert(a + b =~= a);
        assert(keep_data_rows(b) =~= Seq::<Seq<char>>::empty());
        assert(keep_data_rows(a) + keep_data_rows(b) =~= keep_data_rows(a));
    } else {
        let b1 = b.drop_last();
        assert((a + b).drop_last() =~= a + b1);
        assert((a + b).last() == b.last());
        lemma_keep_data_rows_concat(a, b1);
        if is_data_row(b.last()) {
            assert((keep_data_rows(a) + keep_data_rows(b1)).push(b.last()) =~= keep_data_rows(a)
                + keep_data_rows(b1).push(b.last()));
        }
    }
}

/// Dropping a non-data line (a comment, or an empty line) anywhere in the
/// line sequence leaves the data rows — and so the whole parse — unchanged.
pub proof fn lemma_non_data_line_ignored(a: Seq<Seq<char>>, c: Seq<char>, b: Seq<Seq<char>>)
    requires
        !is_data_row(c),
    ensures
        keep_data_rows(a + seq![c] + b) == keep_data_rows(a + b),
{
    assert(seq![c].drop_last() =~= Seq::<Seq<char>>::empty());
    assert(seq![c].last() == c);
    assert(keep_data_rows(Seq::<Seq<char>>::empty()) =~= Seq::<Seq<char>>::empty());
    assert(keep_data_rows(seq![c]) =~= Seq::<Seq<char>>::empty());
    lemma_keep_data_rows_concat(a, seq![c]);
    lemma_keep_data_rows_concat(a + seq![c], b);
    lemma_keep_data_rows_concat(a, b);
    assert(keep_data_rows(a + seq![c]) + keep_data_rows(b) =~= keep_data_rows(a)
        + keep_data_rows(b));
}

/// Comment lines in particular never affect which rows are parsed, wherever
/// they stand: before, between, or after the data rows.
pub proof fn lemma_comment_line_ignored(a: Seq<Seq<char>>, c: Seq<char>, b: Seq<Seq<char>>)
    requires
        is_comment_line(c),
    ensures
        keep_data_rows(a + seq![c] + b) == keep_data_rows(a + b),
{
    lemma_non_data_line_ignored(a, c, b);
}

/// The parse result is a function of the data rows alone: two inputs with the
/// same data rows parse identically, whatever comments surround them.
pub proof fn lemma_parse_depends_on_data_rows(s1: Seq<char>, s2: Seq<char>)
    requires
        data_rows_of(s1) == data_rows_of(s2),
    ensures
        parse_spec(s1) == parse_spec(s2),
{
}

/// An error out of row decoding is always a row-level classification.
pub proof fn lemma_decode_rows_err_kind(rows: Seq<Seq<char>>)
    ensures
        decode_rows_spec(rows) matches Err(e) ==> (e is MalformedRow || e is InvalidNumericField),
    decreases rows.len(),
{
    if rows.len() > 0 {
        lemma_decode_rows_err_kind(rows.drop_last());
    }
}

/// A decode failure is final: rows after the first bad one change nothing.
pub proof fn lemma_decode_rows_err_extend(rows: Seq<Seq<char>>, rest: Seq<Seq<char>>)
    requires
        decode_rows_spec(rows) is Err,
    ensures
        decode_rows_spec(rows + rest) == decode_rows_spec(rows),
    decreases rest.len(),
{
    if rest.len() == 0 {
        assert(rows + rest =~= rows);
    } else {
        assert((rows + rest).drop_last() =~= rows + rest.drop_last());
        lemma_decode_rows_err_extend(rows, rest.drop_last());
    }
}

/// When every row decodes, the whole decode succeeds, node `i` coming from
/// row `i`.
pub proof fn lemma_decode_rows_all_ok(rows: Seq<Seq<char>>)
    requires
        forall|i: int|
            0 <= i < rows.len() ==> decode_fields_spec(fields_of(#[trigger] rows[i])) is Ok,
    ensures
        decode_rows_spec(rows) is Ok,
        decode_rows_spec(rows)->Ok_0.len() == rows.len(),
        forall|i: int|
            0 <= i < rows.len() ==> decode_rows_spec(rows)->Ok_0[i] == node_view_of_fields(
                fields_of(#[trigger] rows[i]),
            ),
    decreases rows.len(),
{
    if rows.len() > 0 {
        let r1 = rows.drop_last();
        assert(forall|i: int| 0 <= i < r1.len() ==> r1[i] == #[trigger] rows[i]);
        lemma_decode_rows_all_ok(r1);
        assert(decode_fields_spec(fields_of(rows.last())) is Ok);
    }
}

/// With at least one data row and every row well-formed, the parse succeeds:
/// one node per row in source order, vpc and region from positions 9 and 10
/// of the first row, and a unit count of 1.
pub proof fn lemma_parse_all_rows_ok(s: Seq<char>)
    requires
        data_rows_of(s).len() >= 1,
        forall|i: int|
            0 <= i < data_rows_of(s).len() ==> decode_fields_spec(
                fields_of(#[trigger] data_rows_of(s)[i]),
            ) is Ok,
    ensures
        parse_spec(s) is Ok,
        parse_spec(s)->Ok_0.nodes.len() == data_rows_of(s).len(),
        forall|i: int|
            0 <= i < data_rows_of(s).len() ==> parse_spec(s)->Ok_0.nodes[i]
                == node_view_of_fields(fields_of(#[trigger] data_rows_of(s)[i])),
        parse_spec(s)->Ok_0.vpc == fields_of(data_rows_of(s)[0])[9],
        parse_spec(s)->Ok_0.region == fields_of(data_rows_of(s)[0])[10],
        parse_spec(s)->Ok_0.units == 1,
{
    lemma_decode_rows_all_ok(data_rows_of(s));
}

/// The parse fails with `NoRecords` exactly when the input has no data rows.
pub proof fn lemma_parse_no_records(s: Seq<char>)
    ensures
        parse_spec(s) == Err::<ClusterView, ClusterError>(ClusterError::NoRecords)
            <==> data_rows_of(s).len() == 0,
{
    lemma_decode_rows_err_kind(data_rows_of(s));
}

/// If the rows before `k` decode and row `k` does not, the parse fails with
/// row `k`'s classification: `MalformedRow` for a short row, and otherwise
/// `InvalidNumericField` for a bad unit or instance field.
pub proof fn lemma_parse_first_bad_row(s: Seq<char>, k: int)
    requires
        0 <= k < data_rows_of(s).len(),
        decode_fields_spec(fields_of(data_rows_of(s)[k])) is Err,
        forall|j: int|
            0 <= j < k ==> decode_fields_spec(fields_of(#[trigger] data_rows_of(s)[j])) is Ok,
    ensures
        parse_spec(s) == Err::<ClusterView, ClusterError>(
            decode_fields_spec(fields_of(data_rows_of(s)[k]))->Err_0,
        ),
{
    let rows = data_rows_of(s);
    let pre = rows.take(k);
    assert(forall|j: int| 0 <= j < pre.len() ==> pre[j] == #[trigger] rows[j]);
    lemma_decode_rows_all_ok(pre);
    let pre1 = rows.take(k + 1);
    assert(pre1.drop_last() =~= pre);
    assert(pre1.last() == rows[k]);
    assert(decode_rows_spec(pre1) is Err);
    assert(decode_rows_spec(pre1)->Err_0 == decode_fields_spec(fields_of(rows[k]))->Err_0);
    lemma_decode_rows_err_extend(pre1, rows.skip(k + 1));
    assert(pre1 + rows.skip(k + 1) =~= rows);
}

/// Parsing is deterministic: any two results that meet the parse contract for
/// the same input text are structurally equal — equal aggregates on success,
/// the same classification on failure. With `read_cluster`'s own contract
/// this says that parsing the same well-formed file twice yields two
/// structurally equal `Cluster` values.
pub proof fn lemma_parse_deterministic(
    s: Seq<char>,
    r1: Result<Cluster, ClusterError>,
    r2: Result<Cluster, ClusterError>,
)
    requires
        cluster_result_view(r1) == parse_spec(s),
        cluster_result_view(r2) == parse_spec(s),
    ensures
        r1 matches Ok(c1) ==> (r2 matches Ok(c2) && c1.eq_spec(&c2)),
        r1 matches Err(e1) ==> (r2 matches Err(e2) && e1 == e2),
{
}

/// Parses the full text of one cluster file: skips comment and empty lines,
/// decodes every data row in order, hoists vpc and region from the first data
/// row, and returns the completed aggregate or the classified error that
/// `parse_spec` assigns to this input — deterministically, the result being a
/// function of the input text alone.
pub fn read_cluster(input: &str) -> (r: Result<Cluster, ClusterError>)
    ensures
        cluster_result_view(r) == parse_spec(input@),
        ((r matches Err(e) && e is NoRecords) <==> data_rows_of(input@).len() == 0),
        r matches Err(e) ==> (e is NoRecords || e is MalformedRow || e is InvalidNumericField),
        r matches Ok(c) ==> (c.wf() && c@.nodes.len() == data_rows_of(input@).len() && c@.units
            == 1 && c@.vpc == fields_of(data_rows_of(input@)[0])[9] && c@.region == fields_of(
            data_rows_of(input@)[0],
        )[10]),
{
    let lines = split_str(input, '\n');
    let mut nodes: Vec<Node> = Vec::new();
    let mut vpc: String = String::new();
    let mut region: String = String::new();
    let mut li: usize = 0;
    proof {
        assert(lines.deep_view().take(0) =~= Seq::<Seq<char>>::empty());
        assert(nodes.deep_view() =~= Seq::<NodeView>::empty());
    }
    while li < lines.len()
        invariant
            lines.deep_view() == lines_of(input@),
            0 <= li <= lines.len(),
            decode_rows_spec(keep_data_rows(lines.deep_view().take(li as int)))
                == Ok::<Seq<NodeView>, ClusterError>(nodes.deep_view()),
            nodes@.len() == keep_data_rows(lines.deep_view().take(li as int)).len(),
            keep_data_rows(lines.deep_view().take(li as int)).len() > 0 ==> (vpc@ == fields_of(
                keep_data_rows(lines.deep_view().take(li as int))[0],
            )[9] && region@ == fields_of(
                keep_data_rows(lines.deep_view().take(li as int))[0],
            )[10]),
        decreases lines.len() - li,
    {
        let ghost ldv = lines.deep_view();
        let ghost dr = keep_data_rows(ldv.take(li as int));
        let line = &lines[li];
        proof {
            assert(line@ == ldv[li as int]);
            assert(ldv.take(li + 1).drop_last() =~= ldv.take(li as int));
            assert(ldv.take(li + 1).last() == ldv[li as int]);
        }
        let is_data = if line.as_str().is_empty() {
            false
        } else {
            line.as_str().get_char(0) != '#'
        };
        if is_data {
            proof {
                assert(is_data_row(ldv[li as int]));
                assert(keep_data_rows(ldv.take(li + 1)) == dr.push(ldv[li as int]));
                assert((dr.push(ldv[li as int])).drop_last() =~= dr);
                assert((dr.push(ldv[li as int])).last() == ldv[li as int]);
            }
            let fields = split_str(line.as_str(), ',');
            proof {
                assert(fields.deep_view() == fields_of(ldv[li as int]));
            }
            match decode_node(&fields) {
                Ok(node) => {
                    if nodes.len() == 0 {
                        proof {
                            assert(fields.deep_view().len() >= 13);
                            assert(fields.deep_view().len() == fields@.len());
                            assert(fields.deep_view()[9] == fields@[9]@);
                            assert(fields.deep_view()[10] == fields@[10]@);
                        }
                        vpc = fields[9].clone();
                        region = fields[10].clone();
                    }
                    let ghost ndv = nodes.deep_view();
                    nodes.push(node);
                    proof {
                        assert(nodes.deep_view() =~= ndv.push(node@));
                        assert(decode_rows_spec(dr.push(ldv[li as int]))
                            == Ok::<Seq<NodeView>, ClusterError>(ndv.push(node@)));
                    }
                },
                Err(e) => {
                    proof {
                        let dr1 = dr.push(ldv[li as int]);
                        assert(decode_fields_spec(fields_of(ldv[li as int]))
                            == Err::<NodeView, ClusterError>(e));
                        assert(decode_rows_spec(dr1) == Err::<Seq<NodeView>, ClusterError>(e));
                        assert(ldv =~= ldv.take(li + 1) + ldv.skip(li + 1));
                        lemma_keep_data_rows_concat(ldv.take(li + 1), ldv.skip(li + 1));
                        assert(data_rows_of(input@) == dr1 + keep_data_rows(ldv.skip(li + 1)));
                        lemma_decode_rows_err_extend(dr1, keep_data_rows(ldv.skip(li + 1)));
                        assert(decode_rows_spec(data_rows_of(input@))
                            == Err::<Seq<NodeView>, ClusterError>(e));
                        assert(data_rows_of(input@).len() >= dr1.len());
                    }
                    return Err(e);
                },
            }
        }
        li = li + 1;
    }
    proof {
        assert(lines.deep_view().take(lines@.len() as int) =~= lines.deep_view());
        assert(data_rows_of(input@) == keep_data_rows(lines.deep_view()));
    }
    if nodes.len() == 0 {
        return Err(ClusterError::NoRecords);
    }
    let ghost ndv = nodes.deep_view();
    let cluster = Cluster { nodes, vpc, region, units: 1 };
    proof {
        let rows = data_rows_of(input@);
        assert(cluster@ =~= ClusterView {
            nodes: ndv,
            vpc: fields_of(rows[0])[9],
            region: fields_of(rows[0])[10],
            units: 1,
        });
    }
    Ok(cluster)
}

} // verus!
