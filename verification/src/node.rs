//! The Record Decoder: maps one row of ordered text fields to a typed `Node`,
//! with positional field mapping and checked numeric coercion.

use vstd::prelude::*;
use crate::error::ClusterError;
use crate::numeric::is_u32_numeral;
use crate::numeric::numeral_value;
use crate::numeric::parse_u32;

verus! {

/// One cluster member, decoded from one data row. Immutable once constructed.
///
/// String fields are stored verbatim: no trimming or normalization beyond the
/// row splitting itself. `volume_id` may hold several space-separated
/// identifiers as one opaque string; an `efs_id` of `"NONE"` is a valid
/// sentinel for "no shared filesystem".
#[derive(Debug)]
pub struct Node {
    pub instance_id: String,
    pub name: String,
    pub pub_ip: String,
    pub pri_ip: String,
    pub volume_id: String,
    pub role: String,
    pub efs_id: String,
    pub subnet: String,
    pub security_group: String,
    pub unit: u32,
    pub instance: u32,
}

/// The mathematical value of a `Node`: its text fields as character
/// sequences, its numeric fields as they stand.
#[verifier::ext_equal]
pub ghost struct NodeView {
    pub instance_id: Seq<char>,
    pub name: Seq<char>,
    pub pub_ip: Seq<char>,
    pub pri_ip: Seq<char>,
    pub volume_id: Seq<char>,
    pub role: Seq<char>,
    pub efs_id: Seq<char>,
    pub subnet: Seq<char>,
    pub security_group: Seq<char>,
    pub unit: u32,
    pub instance: u32,
}

impl View for Node {
    type V = NodeView;

    open spec fn view(&self) -> NodeView {
        NodeView {
            instance_id: self.instance_id@,
            name: self.name@,
            pub_ip: self.pub_ip@,
            pri_ip: self.pri_ip@,
            volume_id: self.volume_id@,
            role: self.role@,
            efs_id: self.efs_id@,
            subnet: self.subnet@,
            security_group: self.security_group@,
            unit: self.unit,
            instance: self.instance,
        }
    }
}

impl DeepView for Node {
    type V = NodeView;

    open spec fn deep_view(&self) -> NodeView {
        self.view()
    }
}

impl PartialEq for Node {
    /// Structural equality: every field of the two nodes agrees.
    fn eq(&self, other: &Node) -> (r: bool) {
        self.instance_id == other.instance_id && self.name == other.name && self.pub_ip
            == other.pub_ip && self.pri_ip == other.pri_ip && self.volume_id == other.volume_id
            && self.role == other.role && self.efs_id == other.efs_id && self.subnet
            == other.subnet && self.security_group == other.security_group && self.unit
            == other.unit && self.instance == other.instance
    }
}

impl vstd::std_specs::cmp::PartialEqSpecImpl for Node {
    open spec fn obeys_eq_spec() -> bool {
        true
    }

    open spec fn eq_spec(&self, other: &Node) -> bool {
        self@ == other@
    }
}

/// The row has at least the 13 required positions. Positions beyond the 13th
/// are tolerated and ignored.
pub open spec fn fields_shape_ok(f: Seq<Seq<char>>) -> bool {
    f.len() >= 13
}

/// Positions 11 (unit) and 12 (instance) both coerce to `u32`.
pub open spec fn fields_numeric_ok(f: Seq<Seq<char>>) -> bool {
    is_u32_numeral(f[11]) && is_u32_numeral(f[12])
}

/// The positional field-to-attribute mapping, in one place: position 0 is the
/// instance id, 1 the name, 2 the public IP, 3 the private IP, 4 the volume
/// id(s), 5 the role, 6 the shared-filesystem id, 7 the subnet, 8 the
/// security group, 11 the unit index, 12 the instance index. Positions 9
/// (vpc) and 10 (region) are consumed by the Cluster Assembler instead.
pub open spec fn node_view_of_fields(f: Seq<Seq<char>>) -> NodeView {
    NodeView {
        instance_id: f[0],
        name: f[1],
        pub_ip: f[2],
        pri_ip: f[3],
        volume_id: f[4],
        role: f[5],
        efs_id: f[6],
        subnet: f[7],
        security_group: f[8],
        unit: numeral_value(f[11]) as u32,
        instance: numeral_value(f[12]) as u32,
    }
}

/// What decoding one row of fields yields: a malformed shape before content
/// is looked at, then a numeric-coercion failure, then the decoded node.
pub open spec fn decode_fields_spec(f: Seq<Seq<char>>) -> Result<NodeView, ClusterError> {
    if !fields_shape_ok(f) {
        Err(ClusterError::MalformedRow)
    } else if !fields_numeric_ok(f) {
        Err(ClusterError::InvalidNumericField)
    } else {
        Ok(node_view_of_fields(f))
    }
}

/// `Result` of the decoder, lifted to views.
pub open spec fn node_result_view(r: Result<Node, ClusterError>) -> Result<
    NodeView,
    ClusterError,
> {
    match r {
        Ok(n) => Ok(n@),
        Err(e) => Err(e),
    }
}

/// Decodes one row of ordered text fields into a `Node`, or fails with
/// `MalformedRow` (fewer than 13 fields) or `InvalidNumericField` (unit or
/// instance field not a `u32`), exactly as `decode_fields_spec` says.
pub fn decode_node(fields: &Vec<String>) -> (r: Result<Node, ClusterError>)
    ensures
        node_result_view(r) == decode_fields_spec(fields.deep_view()),
{
    let ghost f = fields.deep_view();
    proof {
        assert(f.len() == fields@.len());
        assert(forall|i: int| 0 <= i < f.len() ==> f[i] == #[trigger] fields@[i]@);
    }
    if fields.len() < 13 {
        return Err(ClusterError::MalformedRow);
    }
    let unit = match parse_u32(fields[11].as_str()) {
        Some(v) => v,
        None => {
            return Err(ClusterError::InvalidNumericField);
        },
    };
    let instance = match parse_u32(fields[12].as_str()) {
        Some(v) => v,
        None => {
            return Err(ClusterError::InvalidNumericField);
        },
    };
    let node = Node {
        instance_id: fields[0].clone(),
        name: fields[1].clone(),
        pub_ip: fields[2].clone(),
        pri_ip: fields[3].clone(),
        volume_id: fields[4].clone(),
        role: fields[5].clone(),
        efs_id: fields[6].clone(),
        subnet: fields[7].clone(),
        security_group: fields[8].clone(),
        unit,
        instance,
    };
    proof {
        assert(node@ =~= node_view_of_fields(f));
    }
    Ok(node)
}

} // verus!
