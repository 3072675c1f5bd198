//! The schema rules that a diagram must meet before it is laid out.

use vstd::prelude::*;
use crate::error::{ArchflowError, ErrorView};
use crate::model::{DiagramIR, DiagramView, NodeView};
use crate::text::{append_str, chars_to_string, str_chars};

verus! {

/// The first index `>= k` whose node id is also the id of an earlier node.
pub open spec fn repeated_id_from(nodes: Seq<NodeView>, k: int) -> Option<int>
    decreases nodes.len() - k,
{
    if k < 0 || k >= nodes.len() {
        None
    } else if exists|j: int| 0 <= j < k && #[trigger] nodes[j].id == nodes[k].id {
        Some(k)
    } else {
        repeated_id_from(nodes, k + 1)
    }
}

/// The outcome of the schema checks: the version must be `1.0.0`, there must
/// be a node, and no two nodes may share an id (the first repeat is named).
pub open spec fn validate_spec(d: DiagramView) -> Result<(), ErrorView> {
    if d.version != "1.0.0"@ {
        Err(ErrorView::InvalidSchema("Unsupported IR version: "@ + d.version + ". Expected 1.0.0"@))
    } else if d.nodes.len() == 0 {
        Err(ErrorView::InvalidSchema("Diagram must have at least one node"@))
    } else {
        match repeated_id_from(d.nodes, 0) {
            Some(i) => Err(ErrorView::InvalidSchema("Duplicate node ID: "@ + d.nodes[i].id)),
            None => Ok(()),
        }
    }
}

/// Checks a diagram against the schema rules.
#[verifier::loop_isolation(false)]
pub fn validate(ir: &DiagramIR) -> (r: Result<(), ArchflowError>)
    ensures
        match validate_spec(ir@) {
            Ok(()) => r is Ok,
            Err(e) => r matches Err(x) && x@ == e,
        },
{
    let expected = chars_to_string(&str_chars("1.0.0"));
    if ir.version != expected {
        let mut m = str_chars("Unsupported IR version: ");
        append_str(&mut m, ir.version.as_str());
        append_str(&mut m, ". Expected 1.0.0");
        return Err(ArchflowError::InvalidSchema(chars_to_string(&m)));
    }
    if ir.nodes.len() == 0 {
        return Err(
            ArchflowError::InvalidSchema(chars_to_string(&str_chars("Diagram must have at least one node"))),
        );
    }
    let ghost nodes = ir@.nodes;
    let mut k: usize = 0;
    while k < ir.nodes.len()
        invariant
            0 <= k <= ir.nodes.len(),
            nodes == ir@.nodes,
            nodes.len() == ir.nodes.len(),
            repeated_id_from(nodes, 0) == repeated_id_from(nodes, k as int),
        decreases ir.nodes.len() - k,
    {
        let mut j: usize = 0;
        while j < k
            invariant
                0 <= j <= k < ir.nodes.len(),
                nodes == ir@.nodes,
                forall|i: int| 0 <= i < j ==> #[trigger] nodes[i].id != nodes[k as int].id,
            decreases k - j,
        {
            assert(nodes[j as int] == ir.nodes@[j as int]@);
            assert(nodes[k as int] == ir.nodes@[k as int]@);
            if ir.nodes[j].id == ir.nodes[k].id {
                assert(nodes[j as int].id == nodes[k as int].id);
                let mut m = str_chars("Duplicate node ID: ");
                append_str(&mut m, ir.nodes[k].id.as_str());
                return Err(ArchflowError::InvalidSchema(chars_to_string(&m)));
            }
            j = j + 1;
        }
        k = k + 1;
    }
    Ok(())
}

} // verus!
