use vstd::prelude::*;

verus! {

/// The statement that creates one node labelled `label` whose properties are
/// the parameter `props`.
pub fn node_statement(label: &str) -> (r: String)
    ensures
        r@ == "CREATE (n:"@ + label@ + " $props)"@,
{
    let mut s = "CREATE (n:".to_owned();
    s.append(label);
    s.append(" $props)");
    s
}

/// The statement that finds node `a` (label `start_label`, property
/// `start_key` equal to the parameter `start`) and node `b` (label
/// `end_label`, property `end_key` equal to the parameter `end`), and creates a
/// relationship of type `rel_type` from `a` to `b` with the properties `props`.
pub fn relationship_statement(
    rel_type: &str,
    start_label: &str,
    start_key: &str,
    end_label: &str,
    end_key: &str,
) -> (r: String)
    ensures
        r@ == "MATCH (a:"@ + start_label@ + " {"@ + start_key@ + ": $start}) MATCH (b:"@
            + end_label@ + " {"@ + end_key@ + ": $end}) CREATE (a)-[r:"@ + rel_type@
            + " $props]->(b)"@,
{
    let mut s = "MATCH (a:".to_owned();
    s.append(start_label);
    s.append(" {");
    s.append(start_key);
    s.append(": $start}) MATCH (b:");
    s.append(end_label);
    s.append(" {");
    s.append(end_key);
    s.append(": $end}) CREATE (a)-[r:");
    s.append(rel_type);
    s.append(" $props]->(b)");
    s
}

} // verus!
