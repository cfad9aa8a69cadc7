use vstd::prelude::*;

use crate::ast::ASTNode;
use crate::ast::ASTNodeData;
use crate::ast::While;
use crate::ast::If;
use crate::ast::IfElse;
use crate::ast::VariableAssignment;
use crate::ast::Function;
use crate::ast::NodeV;
use crate::ast::NodeDataV;
use crate::ast::WhileV;
use crate::ast::IfV;
use crate::ast::IfElseV;
use crate::ast::AssignV;
use crate::ast::CallV;
use crate::ast::node_view;
use crate::ast::nodes_view;
use crate::ast::if_view;
use crate::ast::ifs_view;
use crate::ast::data_view;
use crate::ast::wf_node;
use crate::ast::wf_nodes;
use crate::ast::wf_branch;
use crate::ast::wf_branches;
use crate::ast::wf_data;
use crate::json::Json;
use crate::json::JsonV;
use crate::json::json_view;
use crate::json::arr_view;
use crate::json::obj_view;
use crate::json::spec_lookup;
use crate::json::spec_lookup_idx;
use crate::json::lookup_idx;
use crate::text::spec_print;
use crate::text::write_json;
use crate::parse::printed_at;
use crate::parse::parse_json_at;
use crate::parse::lemma_printed_at_first;
use crate::parse::lemma_print_shape;
use crate::parse::chars_to_string;
use crate::text::str_to_chars;
use crate::parse::skip_ws;
use crate::text::is_ws;

verus! {

broadcast use
    vstd::std_specs::vec::axiom_vec_index_decreases,
    vstd::std_specs::vec::axiom_vec_decreases_to_view,
    vstd::seq::axiom_seq_index_decreases,
    vstd::seq::axiom_seq_subrange_decreases;

/// Why a document was rejected. Decoding is all-or-nothing: on any failure
/// only the error is returned, never a partial tree. The wire format names
/// three kinds, all at the document level; `Syntax` is this library's added
/// kind for text that is not a JSON document at all.
#[derive(Debug, Clone, Copy, PartialEq, Eq, Structural)]
pub enum DecodeError {
    /// The text is not well-formed JSON.
    Syntax,
    /// The `type` discriminator is not one of the six recognized strings.
    UnknownTag,
    /// A key that the node's declared tag requires is absent.
    MissingField,
    /// A present field's value has the wrong shape for its key.
    TypeMismatch,
}

/// The discriminator string of a payload variant.
pub open spec fn spec_tag(d: NodeDataV) -> Seq<char> {
    match d {
        NodeDataV::Sequence(_) => "sequence"@,
        NodeDataV::While(_) => "while"@,
        NodeDataV::IfElse(_) => "ifElse"@,
        NodeDataV::Input(_) => "input"@,
        NodeDataV::VariableAssignment(_) => "variableAssignment"@,
        NodeDataV::FunctionCall(_) => "functionCall"@,
    }
}

/// Whether `tag` is one of the six recognized discriminator strings.
pub open spec fn spec_is_known_tag(tag: Seq<char>) -> bool {
    ||| tag == "sequence"@
    ||| tag == "while"@
    ||| tag == "ifElse"@
    ||| tag == "input"@
    ||| tag == "variableAssignment"@
    ||| tag == "functionCall"@
}

/// The canonical JSON document of a node: an object with keys `id`, `type`
/// and `data`, in that order.
pub open spec fn spec_node_json(n: NodeV) -> JsonV
    decreases n,
{
    JsonV::Obj(
        seq![
            ("id"@, JsonV::Int(n.id as u64)),
            ("type"@, JsonV::Str(spec_tag(n.data))),
            ("data"@, spec_data_json(n.data)),
        ],
    )
}

pub open spec fn spec_nodes_json(ns: Seq<NodeV>) -> Seq<JsonV>
    decreases ns,
{
    Seq::new(ns.len(), |i: int| if 0 <= i < ns.len() { spec_node_json(ns[i]) } else { arbitrary() })
}

/// The canonical JSON document of a branch: keys `condition` and `sequence`.
pub open spec fn spec_branch_json(b: IfV) -> JsonV
    decreases b,
{
    JsonV::Obj(
        seq![
            ("condition"@, spec_node_json(*b.condition)),
            ("sequence"@, JsonV::Arr(spec_nodes_json(b.sequence))),
        ],
    )
}

pub open spec fn spec_branches_json(bs: Seq<IfV>) -> Seq<JsonV>
    decreases bs,
{
    Seq::new(
        bs.len(),
        |i: int| if 0 <= i < bs.len() { spec_branch_json(bs[i]) } else { arbitrary() },
    )
}

/// The canonical JSON payload under the `data` key, per variant. An absent
/// `elif` or `else` branch is written as `null`, as the producer's encoder
/// always wrote it.
pub open spec fn spec_data_json(d: NodeDataV) -> JsonV
    decreases d,
{
    match d {
        NodeDataV::Sequence(ns) => JsonV::Arr(spec_nodes_json(ns)),
        NodeDataV::While(w) => JsonV::Obj(
            seq![
                ("isDo"@, JsonV::Bool(w.is_do)),
                ("condition"@, spec_node_json(*w.condition)),
                ("sequence"@, JsonV::Arr(spec_nodes_json(w.sequence))),
            ],
        ),
        NodeDataV::IfElse(ie) => JsonV::Obj(
            seq![
                ("if"@, spec_branch_json(ie.if_)),
                (
                    "elif"@,
                    match ie.elif {
                        Some(bs) => JsonV::Arr(spec_branches_json(bs)),
                        None => JsonV::Null,
                    },
                ),
                (
                    "else"@,
                    match ie.else_ {
                        Some(b) => spec_branch_json(b),
                        None => JsonV::Null,
                    },
                ),
            ],
        ),
        NodeDataV::Input(s) => JsonV::Str(s),
        NodeDataV::VariableAssignment(a) => JsonV::Obj(
            seq![("name"@, JsonV::Str(a.name)), ("value"@, spec_node_json(*a.value))],
        ),
        NodeDataV::FunctionCall(f) => JsonV::Obj(
            seq![
                ("name"@, JsonV::Str(f.name)),
                ("isBuiltin"@, JsonV::Bool(f.is_builtin)),
                ("argv"@, JsonV::Arr(spec_nodes_json(f.argv))),
            ],
        ),
    }
}

/// The tree described by a JSON document, or the exact error that rejects
/// it. The document must be an object; `id` must be present and a number
/// within the identifier range; `type` must be present, a string, and one of
/// the six recognized tags; `data` must be present and shaped as the tag
/// demands. Keys may come in any order; unknown keys are ignored; of
/// repeated keys the first is read.
pub open spec fn spec_node_from_json(j: JsonV) -> Result<NodeV, DecodeError>
    decreases j,
{
    match j {
        JsonV::Obj(pairs) => match spec_lookup(pairs, "id"@) {
            None => Err(DecodeError::MissingField),
            Some(idv) => match idv {
                JsonV::Int(iv) => if iv > u32::MAX as u64 {
                    Err(DecodeError::TypeMismatch)
                } else {
                    match spec_lookup(pairs, "type"@) {
                        None => Err(DecodeError::MissingField),
                        Some(tv) => match tv {
                            JsonV::Str(tag) => if !spec_is_known_tag(tag) {
                                Err(DecodeError::UnknownTag)
                            } else {
                                let di = spec_lookup_idx(pairs, "data"@);
                                if !(0 <= di < pairs.len()) {
                                    Err(DecodeError::MissingField)
                                } else {
                                    match spec_data_from_json(tag, pairs[di].1) {
                                        Ok(d) => Ok(NodeV { id: iv as u32, data: d }),
                                        Err(e) => Err(e),
                                    }
                                }
                            },
                            _ => Err(DecodeError::TypeMismatch),
                        },
                    }
                },
                _ => Err(DecodeError::TypeMismatch),
            },
        },
        _ => Err(DecodeError::TypeMismatch),
    }
}

pub open spec fn spec_nodes_from_json(items: Seq<JsonV>) -> Result<Seq<NodeV>, DecodeError>
    decreases items,
{
    if items.len() == 0 {
        Ok(Seq::empty())
    } else {
        match spec_node_from_json(items[0]) {
            Err(e) => Err(e),
            Ok(n) => match spec_nodes_from_json(items.drop_first()) {
                Err(e) => Err(e),
                Ok(ns) => Ok(seq![n] + ns),
            },
        }
    }
}

/// A branch read back from its JSON document: an object whose `condition`
/// key holds a node and whose `sequence` key holds a list of nodes.
pub open spec fn spec_branch_from_json(j: JsonV) -> Result<IfV, DecodeError>
    decreases j,
{
    match j {
        JsonV::Obj(pairs) => {
            let ci = spec_lookup_idx(pairs, "condition"@);
            if !(0 <= ci < pairs.len()) {
                Err(DecodeError::MissingField)
            } else {
                match spec_node_from_json(pairs[ci].1) {
                    Err(e) => Err(e),
                    Ok(c) => {
                        let si = spec_lookup_idx(pairs, "sequence"@);
                        if !(0 <= si < pairs.len()) {
                            Err(DecodeError::MissingField)
                        } else {
                            match pairs[si].1 {
                                JsonV::Arr(items) => match spec_nodes_from_json(items) {
                                    Err(e) => Err(e),
                                    Ok(ns) => Ok(
                                        IfV { condition: Box::new(c), sequence: ns },
                                    ),
                                },
                                _ => Err(DecodeError::TypeMismatch),
                            }
                        }
                    },
                }
            }
        },
        _ => Err(DecodeError::TypeMismatch),
    }
}

pub open spec fn spec_branches_from_json(items: Seq<JsonV>) -> Result<Seq<IfV>, DecodeError>
    decreases items,
{
    if items.len() == 0 {
        Ok(Seq::empty())
    } else {
        match spec_branch_from_json(items[0]) {
            Err(e) => Err(e),
            Ok(b) => match spec_branches_from_json(items.drop_first()) {
                Err(e) => Err(e),
                Ok(bs) => Ok(seq![b] + bs),
            },
        }
    }
}

/// The payload read back from the JSON value under `data`, for a recognized
/// tag. An `elif` or `else` key that is absent or `null` is an absent
/// branch; an empty `elif` list is a forbidden encoding, rejected as a
/// shape violation.
pub open spec fn spec_data_from_json(tag: Seq<char>, d: JsonV) -> Result<
    NodeDataV,
    DecodeError,
>
    decreases d,
{
    if tag == "sequence"@ {
        match d {
            JsonV::Arr(items) => match spec_nodes_from_json(items) {
                Err(e) => Err(e),
                Ok(ns) => Ok(NodeDataV::Sequence(ns)),
            },
            _ => Err(DecodeError::TypeMismatch),
        }
    } else if tag == "while"@ {
        match d {
            JsonV::Obj(pairs) => match spec_lookup(pairs, "isDo"@) {
                None => Err(DecodeError::MissingField),
                Some(bv) => match bv {
                    JsonV::Bool(is_do) => {
                        let ci = spec_lookup_idx(pairs, "condition"@);
                        if !(0 <= ci < pairs.len()) {
                            Err(DecodeError::MissingField)
                        } else {
                            match spec_node_from_json(pairs[ci].1) {
                                Err(e) => Err(e),
                                Ok(c) => {
                                    let si = spec_lookup_idx(pairs, "sequence"@);
                                    if !(0 <= si < pairs.len()) {
                                        Err(DecodeError::MissingField)
                                    } else {
                                        match pairs[si].1 {
                                            JsonV::Arr(items) => match spec_nodes_from_json(
                                                items,
                                            ) {
                                                Err(e) => Err(e),
                                                Ok(ns) => Ok(
                                                    NodeDataV::While(
                                                        WhileV {
                                                            is_do: is_do,
                                                            condition: Box::new(c),
                                                            sequence: ns,
                                                        },
                                                    ),
                                                ),
                                            },
                                            _ => Err(DecodeError::TypeMismatch),
                                        }
                                    }
                                },
                            }
                        }
                    },
                    _ => Err(DecodeError::TypeMismatch),
                },
            },
            _ => Err(DecodeError::TypeMismatch),
        }
    } else if tag == "ifElse"@ {
        match d {
            JsonV::Obj(pairs) => {
                let ii = spec_lookup_idx(pairs, "if"@);
                if !(0 <= ii < pairs.len()) {
                    Err(DecodeError::MissingField)
                } else {
                    match spec_branch_from_json(pairs[ii].1) {
                        Err(e) => Err(e),
                        Ok(ifb) => {
                            let ei = spec_lookup_idx(pairs, "elif"@);
                            let elif_r: Result<Option<Seq<IfV>>, DecodeError> = if !(0 <= ei
                                < pairs.len()) {
                                Ok(None)
                            } else {
                                match pairs[ei].1 {
                                    JsonV::Null => Ok(None),
                                    JsonV::Arr(items) => if items.len() == 0 {
                                        Err(DecodeError::TypeMismatch)
                                    } else {
                                        match spec_branches_from_json(items) {
                                            Err(e) => Err(e),
                                            Ok(bs) => Ok(Some(bs)),
                                        }
                                    },
                                    _ => Err(DecodeError::TypeMismatch),
                                }
                            };
                            match elif_r {
                                Err(e) => Err(e),
                                Ok(elif) => {
                                    let li = spec_lookup_idx(pairs, "else"@);
                                    let else_r: Result<Option<IfV>, DecodeError> = if !(0 <= li
                                        < pairs.len()) {
                                        Ok(None)
                                    } else {
                                        match pairs[li].1 {
                                            JsonV::Null => Ok(None),
                                            _ => match spec_branch_from_json(pairs[li].1) {
                                                Err(e) => Err(e),
                                                Ok(b) => Ok(Some(b)),
                                            },
                                        }
                                    };
                                    match else_r {
                                        Err(e) => Err(e),
                                        Ok(els) => Ok(
                                            NodeDataV::IfElse(
                                                IfElseV { if_: ifb, elif: elif, else_: els },
                                            ),
                                        ),
                                    }
                                },
                            }
                        },
                    }
                }
            },
            _ => Err(DecodeError::TypeMismatch),
        }
    } else if tag == "input"@ {
        match d {
            JsonV::Str(s) => Ok(NodeDataV::Input(s)),
            _ => Err(DecodeError::TypeMismatch),
        }
    } else if tag == "variableAssignment"@ {
        match d {
            JsonV::Obj(pairs) => match spec_lookup(pairs, "name"@) {
                None => Err(DecodeError::MissingField),
                Some(nv) => match nv {
                    JsonV::Str(name) => {
                        let vi = spec_lookup_idx(pairs, "value"@);
                        if !(0 <= vi < pairs.len()) {
                            Err(DecodeError::MissingField)
                        } else {
                            match spec_node_from_json(pairs[vi].1) {
                                Err(e) => Err(e),
                                Ok(v) => Ok(
                                    NodeDataV::VariableAssignment(
                                        AssignV { name: name, value: Box::new(v) },
                                    ),
                                ),
                            }
                        }
                    },
                    _ => Err(DecodeError::TypeMismatch),
                },
            },
            _ => Err(DecodeError::TypeMismatch),
        }
    } else if tag == "functionCall"@ {
        match d {
            JsonV::Obj(pairs) => match spec_lookup(pairs, "name"@) {
                None => Err(DecodeError::MissingField),
                Some(nv) => match nv {
                    JsonV::Str(name) => match spec_lookup(pairs, "isBuiltin"@) {
                        None => Err(DecodeError::MissingField),
                        Some(bv) => match bv {
                            JsonV::Bool(is_builtin) => {
                                let ai = spec_lookup_idx(pairs, "argv"@);
                                if !(0 <= ai < pairs.len()) {
                                    Err(DecodeError::MissingField)
                                } else {
                                    match pairs[ai].1 {
                                        JsonV::Arr(items) => match spec_nodes_from_json(items) {
                                            Err(e) => Err(e),
                                            Ok(ns) => Ok(
                                                NodeDataV::FunctionCall(
                                                    CallV {
                                                        name: name,
                                                        is_builtin: is_builtin,
                                                        argv: ns,
                                                    },
                                                ),
                                            ),
                                        },
                                        _ => Err(DecodeError::TypeMismatch),
                                    }
                                }
                            },
                            _ => Err(DecodeError::TypeMismatch),
                        },
                    },
                    _ => Err(DecodeError::TypeMismatch),
                },
            },
            _ => Err(DecodeError::TypeMismatch),
        }
    } else {
        Err(DecodeError::UnknownTag)
    }
}


/// The wire format's key and tag strings are pairwise distinct wherever the
/// decoder tells them apart.
pub proof fn lemma_key_distinct()
    ensures
        "id"@ != "type"@,
        "id"@ != "data"@,
        "type"@ != "data"@,
        "isDo"@ != "condition"@,
        "isDo"@ != "sequence"@,
        "condition"@ != "sequence"@,
        "if"@ != "elif"@,
        "if"@ != "else"@,
        "elif"@ != "else"@,
        "name"@ != "value"@,
        "name"@ != "isBuiltin"@,
        "name"@ != "argv"@,
        "isBuiltin"@ != "argv"@,
        "sequence"@ != "while"@,
        "sequence"@ != "ifElse"@,
        "sequence"@ != "input"@,
        "sequence"@ != "variableAssignment"@,
        "sequence"@ != "functionCall"@,
        "while"@ != "ifElse"@,
        "while"@ != "input"@,
        "while"@ != "variableAssignment"@,
        "while"@ != "functionCall"@,
        "ifElse"@ != "input"@,
        "ifElse"@ != "variableAssignment"@,
        "ifElse"@ != "functionCall"@,
        "input"@ != "variableAssignment"@,
        "input"@ != "functionCall"@,
        "variableAssignment"@ != "functionCall"@,
{
    reveal_strlit("id");
    reveal_strlit("type");
    reveal_strlit("data");
    reveal_strlit("isDo");
    reveal_strlit("condition");
    reveal_strlit("sequence");
    reveal_strlit("if");
    reveal_strlit("elif");
    reveal_strlit("else");
    reveal_strlit("name");
    reveal_strlit("value");
    reveal_strlit("isBuiltin");
    reveal_strlit("argv");
    reveal_strlit("while");
    reveal_strlit("ifElse");
    reveal_strlit("input");
    reveal_strlit("variableAssignment");
    reveal_strlit("functionCall");
    assert(("id"@).len() == 2 && ("type"@).len() == 4 && ("data"@).len() == 4);
    assert(("type"@)[0] == 't' && ("data"@)[0] == 'd');
    assert(("isDo"@).len() == 4 && ("condition"@).len() == 9 && ("sequence"@).len() == 8);
    assert(("if"@).len() == 2 && ("elif"@).len() == 4 && ("else"@).len() == 4);
    assert(("elif"@)[2] == 'i' && ("else"@)[2] == 's');
    assert(("name"@).len() == 4 && ("value"@).len() == 5 && ("isBuiltin"@).len() == 9);
    assert(("argv"@).len() == 4);
    assert(("name"@)[0] == 'n' && ("argv"@)[0] == 'a');
    assert(("while"@).len() == 5 && ("ifElse"@).len() == 6 && ("input"@).len() == 5);
    assert(("variableAssignment"@).len() == 18 && ("functionCall"@).len() == 12);
    assert(("while"@)[0] == 'w' && ("input"@)[0] == 'i');
}

/// Round-trip at the document level: reading back the canonical JSON
/// document of any tree yields exactly that tree.
pub proof fn lemma_node_round_trip(n: NodeV)
    requires
        wf_node(n),
    ensures
        spec_node_from_json(spec_node_json(n)) == Ok::<NodeV, DecodeError>(n),
    decreases n,
{
    lemma_key_distinct();
    let pairs = seq![
        ("id"@, JsonV::Int(n.id as u64)),
        ("type"@, JsonV::Str(spec_tag(n.data))),
        ("data"@, spec_data_json(n.data)),
    ];
    assert(spec_node_json(n) == JsonV::Obj(pairs));
    assert(spec_lookup(pairs, "id"@) == Some(JsonV::Int(n.id as u64)));
    let rest1 = pairs.drop_first();
    let rest2 = rest1.drop_first();
    assert(rest1[0] == pairs[1]);
    assert(rest2[0] == pairs[2]);
    assert(spec_lookup(rest1, "type"@) == Some(JsonV::Str(spec_tag(n.data))));
    assert(spec_lookup(pairs, "type"@) == Some(JsonV::Str(spec_tag(n.data))));
    assert(spec_is_known_tag(spec_tag(n.data)));
    assert(spec_lookup_idx(rest2, "data"@) == 0);
    assert(spec_lookup_idx(rest1, "data"@) == 1);
    assert(spec_lookup_idx(pairs, "data"@) == 2);
    lemma_data_round_trip(n.data);
    assert((n.id as u64) as u32 == n.id);
    assert(n == NodeV { id: n.id, data: n.data });
}

pub proof fn lemma_nodes_round_trip(ns: Seq<NodeV>)
    requires
        wf_nodes(ns),
    ensures
        spec_nodes_from_json(spec_nodes_json(ns)) == Ok::<Seq<NodeV>, DecodeError>(ns),
    decreases ns,
{
    let items = spec_nodes_json(ns);
    if ns.len() == 0 {
        assert(items.len() == 0);
        assert(ns =~= Seq::<NodeV>::empty());
    } else {
        assert(items[0] == spec_node_json(ns[0]));
        lemma_node_round_trip(ns[0]);
        assert(items.drop_first() =~= spec_nodes_json(ns.drop_first()));
        lemma_nodes_round_trip(ns.drop_first());
        assert(seq![ns[0]] + ns.drop_first() =~= ns);
    }
}

pub proof fn lemma_branch_round_trip(b: IfV)
    requires
        wf_branch(b),
    ensures
        spec_branch_from_json(spec_branch_json(b)) == Ok::<IfV, DecodeError>(b),
    decreases b,
{
    lemma_key_distinct();
    let pairs = seq![
        ("condition"@, spec_node_json(*b.condition)),
        ("sequence"@, JsonV::Arr(spec_nodes_json(b.sequence))),
    ];
    assert(spec_branch_json(b) == JsonV::Obj(pairs));
    assert(spec_lookup_idx(pairs, "condition"@) == 0);
    let rest1 = pairs.drop_first();
    assert(rest1[0] == pairs[1]);
    assert(spec_lookup_idx(rest1, "sequence"@) == 0);
    assert(spec_lookup_idx(pairs, "sequence"@) == 1);
    lemma_node_round_trip(*b.condition);
    lemma_nodes_round_trip(b.sequence);
    assert(Box::new(*b.condition) == b.condition);
    assert(b == IfV { condition: b.condition, sequence: b.sequence });
    assert(pairs[0].1 == spec_node_json(*b.condition));
    assert(spec_node_from_json(pairs[0].1) == Ok::<NodeV, DecodeError>(*b.condition));
    assert(pairs[1].1 == JsonV::Arr(spec_nodes_json(b.sequence)));
    assert(spec_nodes_from_json(spec_nodes_json(b.sequence)) == Ok::<Seq<NodeV>, DecodeError>(b.sequence));
    assert(IfV { condition: Box::new(*b.condition), sequence: b.sequence } == b);
    assert(spec_branch_from_json(JsonV::Obj(pairs)) == Ok::<IfV, DecodeError>(b));
    assert(spec_branch_json(b) == JsonV::Obj(pairs));
    assert(spec_branch_from_json(spec_branch_json(b)) == Ok::<IfV, DecodeError>(b));
}

pub proof fn lemma_branches_round_trip(bs: Seq<IfV>)
    requires
        wf_branches(bs),
    ensures
        spec_branches_from_json(spec_branches_json(bs)) == Ok::<Seq<IfV>, DecodeError>(bs),
    decreases bs,
{
    let items = spec_branches_json(bs);
    if bs.len() == 0 {
        assert(items.len() == 0);
        assert(bs =~= Seq::<IfV>::empty());
    } else {
        assert(items[0] == spec_branch_json(bs[0]));
        lemma_branch_round_trip(bs[0]);
        assert(items.drop_first() =~= spec_branches_json(bs.drop_first()));
        lemma_branches_round_trip(bs.drop_first());
        assert(seq![bs[0]] + bs.drop_first() =~= bs);
    }
}

pub proof fn lemma_data_round_trip(d: NodeDataV)
    requires
        wf_data(d),
    ensures
        spec_data_from_json(spec_tag(d), spec_data_json(d)) == Ok::<NodeDataV, DecodeError>(d),
    decreases d,
{
    lemma_key_distinct();
    match d {
        NodeDataV::Sequence(ns) => {
            lemma_nodes_round_trip(ns);
        },
        NodeDataV::While(w) => {
            let pairs = seq![
                ("isDo"@, JsonV::Bool(w.is_do)),
                ("condition"@, spec_node_json(*w.condition)),
                ("sequence"@, JsonV::Arr(spec_nodes_json(w.sequence))),
            ];
            assert(spec_data_json(d) == JsonV::Obj(pairs));
            let rest1 = pairs.drop_first();
            let rest2 = rest1.drop_first();
            assert(rest1[0] == pairs[1]);
            assert(rest2[0] == pairs[2]);
            assert(spec_lookup(pairs, "isDo"@) == Some(JsonV::Bool(w.is_do)));
            assert(spec_lookup_idx(rest1, "condition"@) == 0);
            assert(spec_lookup_idx(pairs, "condition"@) == 1);
            assert(spec_lookup_idx(rest2, "sequence"@) == 0);
            assert(spec_lookup_idx(rest1, "sequence"@) == 1);
            assert(spec_lookup_idx(pairs, "sequence"@) == 2);
            lemma_node_round_trip(*w.condition);
            lemma_nodes_round_trip(w.sequence);
            assert(Box::new(*w.condition) == w.condition);
        },
        NodeDataV::IfElse(ie) => {
            assert(d == NodeDataV::IfElse(ie));
            assert(spec_data_json(d) is Obj);
            let elif_j = match ie.elif {
                Some(bs) => JsonV::Arr(spec_branches_json(bs)),
                None => JsonV::Null,
            };
            let else_j = match ie.else_ {
                Some(b) => spec_branch_json(b),
                None => JsonV::Null,
            };
            let pairs = seq![("if"@, spec_branch_json(ie.if_)), ("elif"@, elif_j), ("else"@, else_j)];
            match ie.elif {
                Some(bs) => {
                    assert(elif_j == JsonV::Arr(spec_branches_json(bs)));
                },
                None => {
                    assert(elif_j == JsonV::Null);
                },
            }
            match ie.else_ {
                Some(eb) => {
                    assert(else_j == spec_branch_json(eb));
                },
                None => {
                    assert(else_j == JsonV::Null);
                },
            }
            let pp = spec_data_json(d)->Obj_0;
            assert(pp.len() == 3);
            assert(pp[0] == ("if"@, spec_branch_json(ie.if_)));
            assert(pp[1].0 == "elif"@);
            assert(pp[1].1 == elif_j);
            assert(pp[2].0 == "else"@);
            assert(pp[2].1 == else_j);
            assert(pp =~~= pairs);
            assert(spec_data_json(d) =~~= JsonV::Obj(pairs));
            let rest1 = pairs.drop_first();
            let rest2 = rest1.drop_first();
            assert(rest1[0] == pairs[1]);
            assert(rest2[0] == pairs[2]);
            assert(spec_lookup_idx(pairs, "if"@) == 0);
            assert(spec_lookup_idx(rest1, "elif"@) == 0);
            assert(spec_lookup_idx(pairs, "elif"@) == 1);
            assert(spec_lookup_idx(rest2, "else"@) == 0);
            assert(spec_lookup_idx(rest1, "else"@) == 1);
            assert(spec_lookup_idx(pairs, "else"@) == 2);
            lemma_branch_round_trip(ie.if_);
            match ie.elif {
                Some(bs) => {
                    assert(bs.len() > 0);
                    assert(spec_branches_json(bs).len() == bs.len());
                    lemma_branches_round_trip(bs);
                },
                None => {},
            }
            match ie.else_ {
                Some(b) => {
                    lemma_branch_round_trip(b);
                    assert(spec_branch_json(b) is Obj);
                },
                None => {},
            }
            assert(ie == IfElseV { if_: ie.if_, elif: ie.elif, else_: ie.else_ });
        },
        NodeDataV::Input(_) => {},
        NodeDataV::VariableAssignment(a) => {
            let pairs = seq![("name"@, JsonV::Str(a.name)), ("value"@, spec_node_json(*a.value))];
            assert(spec_data_json(d) == JsonV::Obj(pairs));
            let rest1 = pairs.drop_first();
            assert(rest1[0] == pairs[1]);
            assert(spec_lookup(pairs, "name"@) == Some(JsonV::Str(a.name)));
            assert(spec_lookup_idx(rest1, "value"@) == 0);
            assert(spec_lookup_idx(pairs, "value"@) == 1);
            lemma_node_round_trip(*a.value);
            assert(Box::new(*a.value) == a.value);
        },
        NodeDataV::FunctionCall(f) => {
            let pairs = seq![
                ("name"@, JsonV::Str(f.name)),
                ("isBuiltin"@, JsonV::Bool(f.is_builtin)),
                ("argv"@, JsonV::Arr(spec_nodes_json(f.argv))),
            ];
            assert(spec_data_json(d) == JsonV::Obj(pairs));
            let rest1 = pairs.drop_first();
            let rest2 = rest1.drop_first();
            assert(rest1[0] == pairs[1]);
            assert(rest2[0] == pairs[2]);
            assert(spec_lookup(pairs, "name"@) == Some(JsonV::Str(f.name)));
            assert(spec_lookup(rest1, "isBuiltin"@) == Some(JsonV::Bool(f.is_builtin)));
            assert(spec_lookup(pairs, "isBuiltin"@) == Some(JsonV::Bool(f.is_builtin)));
            assert(spec_lookup_idx(rest2, "argv"@) == 0);
            assert(spec_lookup_idx(rest1, "argv"@) == 1);
            assert(spec_lookup_idx(pairs, "argv"@) == 2);
            lemma_nodes_round_trip(f.argv);
        },
    }
}

/// The discriminator string of a node's payload.
pub fn tag_of(d: &ASTNodeData) -> (r: String)
    ensures
        r@ == spec_tag(data_view(*d)),
{
    match d {
        ASTNodeData::Sequence(_) => "sequence".to_owned(),
        ASTNodeData::While(_) => "while".to_owned(),
        ASTNodeData::IfElse(_) => "ifElse".to_owned(),
        ASTNodeData::Input(_) => "input".to_owned(),
        ASTNodeData::VariableAssignment(_) => "variableAssignment".to_owned(),
        ASTNodeData::FunctionCall(_) => "functionCall".to_owned(),
    }
}

/// Build the JSON document of a tree. Total: every tree has exactly one
/// canonical document, `spec_node_json` of its model.
pub fn to_json(n: &ASTNode) -> (r: Json)
    ensures
        r@ == spec_node_json(n@),
    decreases *n,
{
    let tag = tag_of(&n.data);
    let data = data_to_json(&n.data);
    let mut pairs: Vec<(String, Json)> = Vec::new();
    pairs.push(("id".to_owned(), Json::Int(n.id as u64)));
    pairs.push(("type".to_owned(), Json::Str(tag)));
    pairs.push(("data".to_owned(), data));
    let ghost ps = pairs@;
    let r = Json::Obj(pairs);
    proof {
        assert(ps.len() == 3);
        assert(ps[0].0@ == "id"@ && json_view(ps[0].1) == JsonV::Int(n.id as u64));
        assert(ps[1].0@ == "type"@ && json_view(ps[1].1) == JsonV::Str(spec_tag(n@.data)));
        assert(ps[2].0@ == "data"@ && json_view(ps[2].1) == spec_data_json(n@.data));
        assert(obj_view(ps) =~~= seq![
            ("id"@, JsonV::Int(n@.id as u64)),
            ("type"@, JsonV::Str(spec_tag(n@.data))),
            ("data"@, spec_data_json(n@.data)),
        ]);
        assert(r@ =~~= spec_node_json(n@));
    }
    r
}

pub fn nodes_to_json(v: &Vec<ASTNode>) -> (r: Vec<Json>)
    ensures
        arr_view(r@) =~~= spec_nodes_json(nodes_view(*v)),
    decreases *v,
{
    let mut out: Vec<Json> = Vec::new();
    let n = v.len();
    for i in 0..n
        invariant
            n == v.len(),
            out@.len() == i,
            forall|q: int| 0 <= q < i ==> json_view(#[trigger] out@[q]) == spec_node_json(
                node_view(v[q]),
            ),
    {
        let j = to_json(&v[i]);
        out.push(j);
    }
    proof {
        assert(arr_view(out@) =~~= spec_nodes_json(nodes_view(*v)));
    }
    out
}

pub fn branch_to_json(b: &If) -> (r: Json)
    ensures
        r@ == spec_branch_json(if_view(*b)),
    decreases *b,
{
    let cond = to_json(&b.condition);
    let seq_j = nodes_to_json(&b.sequence);
    let mut pairs: Vec<(String, Json)> = Vec::new();
    pairs.push(("condition".to_owned(), cond));
    pairs.push(("sequence".to_owned(), Json::Arr(seq_j)));
    let ghost ps = pairs@;
    let r = Json::Obj(pairs);
    proof {
        assert(ps.len() == 2);
        assert(ps[0].0@ == "condition"@ && json_view(ps[0].1) == spec_node_json(node_view(
            *b.condition,
        )));
        assert(ps[1].0@ == "sequence"@ && json_view(ps[1].1) == JsonV::Arr(
            spec_nodes_json(nodes_view(b.sequence)),
        ));
        assert(obj_view(ps) =~~= seq![
            ("condition"@, spec_node_json(*if_view(*b).condition)),
            ("sequence"@, JsonV::Arr(spec_nodes_json(if_view(*b).sequence))),
        ]);
        assert(r@ =~~= spec_branch_json(if_view(*b)));
    }
    r
}

pub fn branches_to_json(v: &Vec<If>) -> (r: Vec<Json>)
    ensures
        arr_view(r@) =~~= spec_branches_json(ifs_view(*v)),
    decreases *v,
{
    let mut out: Vec<Json> = Vec::new();
    let n = v.len();
    for i in 0..n
        invariant
            n == v.len(),
            out@.len() == i,
            forall|q: int| 0 <= q < i ==> json_view(#[trigger] out@[q]) == spec_branch_json(
                if_view(v[q]),
            ),
    {
        let j = branch_to_json(&v[i]);
        out.push(j);
    }
    proof {
        assert(arr_view(out@) =~~= spec_branches_json(ifs_view(*v)));
    }
    out
}

/// Build the JSON payload under `data` for a node's payload variant.
pub fn data_to_json(d: &ASTNodeData) -> (r: Json)
    ensures
        r@ == spec_data_json(data_view(*d)),
    decreases *d,
{
    match d {
        ASTNodeData::Sequence(v) => {
            let r = Json::Arr(nodes_to_json(v));
            proof {
                assert(r@ =~~= spec_data_json(data_view(*d)));
            }
            r
        },
        ASTNodeData::While(w) => {
            let cond = to_json(&w.condition);
            let seq_j = nodes_to_json(&w.sequence);
            let mut pairs: Vec<(String, Json)> = Vec::new();
            pairs.push(("isDo".to_owned(), Json::Bool(w.is_do)));
            pairs.push(("condition".to_owned(), cond));
            pairs.push(("sequence".to_owned(), Json::Arr(seq_j)));
            let ghost ps = pairs@;
            let r = Json::Obj(pairs);
            proof {
                let dv = data_view(*d);
                assert(ps.len() == 3);
                assert(ps[0].0@ == "isDo"@ && json_view(ps[0].1) == JsonV::Bool(w.is_do));
                assert(ps[1].0@ == "condition"@ && json_view(ps[1].1) == spec_node_json(
                    node_view(*w.condition),
                ));
                assert(ps[2].0@ == "sequence"@ && json_view(ps[2].1) == JsonV::Arr(
                    spec_nodes_json(nodes_view(w.sequence)),
                ));
                assert(obj_view(ps) =~~= seq![
                    ("isDo"@, JsonV::Bool(dv->While_0.is_do)),
                    ("condition"@, spec_node_json(*dv->While_0.condition)),
                    ("sequence"@, JsonV::Arr(spec_nodes_json(dv->While_0.sequence))),
                ]);
                assert(r@ =~~= spec_data_json(dv));
            }
            r
        },
        ASTNodeData::IfElse(ie) => {
            let if_j = branch_to_json(&ie.if_);
            let elif_j = match &ie.elif {
                Some(bs) => Json::Arr(branches_to_json(bs)),
                None => Json::Null,
            };
            let else_j = match &ie.else_ {
                Some(b) => branch_to_json(b),
                None => Json::Null,
            };
            let mut pairs: Vec<(String, Json)> = Vec::new();
            pairs.push(("if".to_owned(), if_j));
            pairs.push(("elif".to_owned(), elif_j));
            pairs.push(("else".to_owned(), else_j));
            let ghost ps = pairs@;
            let r = Json::Obj(pairs);
            proof {
                let dv = data_view(*d);
                let iev = dv->IfElse_0;
                assert(ps.len() == 3);
                assert(ps[0].0@ == "if"@ && json_view(ps[0].1) == spec_branch_json(iev.if_));
                assert(ps[1].0@ == "elif"@);
                match &ie.elif {
                    Some(bs) => {
                        assert(iev.elif == Some(ifs_view(*bs)));
                        assert(json_view(ps[1].1) == JsonV::Arr(
                            spec_branches_json(ifs_view(*bs)),
                        ));
                    },
                    None => {
                        assert(iev.elif is None);
                        assert(json_view(ps[1].1) == JsonV::Null);
                    },
                }
                assert(ps[2].0@ == "else"@);
                match &ie.else_ {
                    Some(b) => {
                        assert(iev.else_ == Some(if_view(*b)));
                        assert(json_view(ps[2].1) == spec_branch_json(if_view(*b)));
                    },
                    None => {
                        assert(iev.else_ is None);
                        assert(json_view(ps[2].1) == JsonV::Null);
                    },
                }
                assert(obj_view(ps) =~~= seq![
                    ("if"@, spec_branch_json(iev.if_)),
                    (
                        "elif"@,
                        match iev.elif {
                            Some(bs) => JsonV::Arr(spec_branches_json(bs)),
                            None => JsonV::Null,
                        },
                    ),
                    (
                        "else"@,
                        match iev.else_ {
                            Some(b) => spec_branch_json(b),
                            None => JsonV::Null,
                        },
                    ),
                ]);
                let qq = spec_data_json(dv)->Obj_0;
                assert(spec_data_json(dv) is Obj);
                assert(qq.len() == 3);
                assert(qq[0] == ("if"@, spec_branch_json(iev.if_)));
                assert(qq[1].0 == "elif"@);
                assert(qq[1].1 == match iev.elif {
                    Some(bs) => JsonV::Arr(spec_branches_json(bs)),
                    None => JsonV::Null,
                });
                assert(qq[2].0 == "else"@);
                assert(qq[2].1 == match iev.else_ {
                    Some(b) => spec_branch_json(b),
                    None => JsonV::Null,
                });
                assert(obj_view(ps) =~~= qq);
                assert(r@ =~~= spec_data_json(dv));
            }
            r
        },
        ASTNodeData::Input(s) => {
            let r = Json::Str(s.clone());
            proof {
                assert(r@ =~~= spec_data_json(data_view(*d)));
            }
            r
        },
        ASTNodeData::VariableAssignment(a) => {
            let val = to_json(&a.value);
            let mut pairs: Vec<(String, Json)> = Vec::new();
            pairs.push(("name".to_owned(), Json::Str(a.name.clone())));
            pairs.push(("value".to_owned(), val));
            let ghost ps = pairs@;
            let r = Json::Obj(pairs);
            proof {
                let dv = data_view(*d);
                assert(ps.len() == 2);
                assert(ps[0].0@ == "name"@ && json_view(ps[0].1) == JsonV::Str(a.name@));
                assert(ps[1].0@ == "value"@ && json_view(ps[1].1) == spec_node_json(
                    node_view(*a.value),
                ));
                assert(obj_view(ps) =~~= seq![
                    ("name"@, JsonV::Str(dv->VariableAssignment_0.name)),
                    ("value"@, spec_node_json(*dv->VariableAssignment_0.value)),
                ]);
                assert(r@ =~~= spec_data_json(dv));
            }
            r
        },
        ASTNodeData::FunctionCall(f) => {
            let argv_j = nodes_to_json(&f.argv);
            let mut pairs: Vec<(String, Json)> = Vec::new();
            pairs.push(("name".to_owned(), Json::Str(f.name.clone())));
            pairs.push(("isBuiltin".to_owned(), Json::Bool(f.is_builtin)));
            pairs.push(("argv".to_owned(), Json::Arr(argv_j)));
            let ghost ps = pairs@;
            let r = Json::Obj(pairs);
            proof {
                let dv = data_view(*d);
                assert(ps.len() == 3);
                assert(ps[0].0@ == "name"@ && json_view(ps[0].1) == JsonV::Str(f.name@));
                assert(ps[1].0@ == "isBuiltin"@ && json_view(ps[1].1) == JsonV::Bool(
                    f.is_builtin,
                ));
                assert(ps[2].0@ == "argv"@ && json_view(ps[2].1) == JsonV::Arr(
                    spec_nodes_json(nodes_view(f.argv)),
                ));
                assert(obj_view(ps) =~~= seq![
                    ("name"@, JsonV::Str(dv->FunctionCall_0.name)),
                    ("isBuiltin"@, JsonV::Bool(dv->FunctionCall_0.is_builtin)),
                    ("argv"@, JsonV::Arr(spec_nodes_json(dv->FunctionCall_0.argv))),
                ]);
                assert(r@ =~~= spec_data_json(dv));
            }
            r
        },
    }
}

/// Whether `tag` is one of the six recognized discriminator strings.
pub fn is_known_tag(tag: &String) -> (r: bool)
    ensures
        r == spec_is_known_tag(tag@),
{
    tag.eq(&"sequence".to_owned()) || tag.eq(&"while".to_owned()) || tag.eq(&"ifElse".to_owned())
        || tag.eq(&"input".to_owned()) || tag.eq(&"variableAssignment".to_owned()) || tag.eq(
        &"functionCall".to_owned(),
    )
}

/// Read a tree back from its JSON document: the executable counterpart of
/// `spec_node_from_json`, returning exactly the tree or error it names.
pub fn from_json(j: &Json) -> (r: Result<ASTNode, DecodeError>)
    ensures
        match r {
            Ok(t) => spec_node_from_json(j@) == Ok::<NodeV, DecodeError>(t@),
            Err(e) => spec_node_from_json(j@) == Err::<NodeV, DecodeError>(e),
        },
    decreases *j,
{
    match j {
        Json::Obj(pairs) => {
            let id: u32 = match lookup_idx(pairs, &"id".to_owned()) {
                None => {
                    return Err(DecodeError::MissingField);
                },
                Some(ii) => match &pairs[ii].1 {
                    Json::Int(iv) => if *iv > (u32::MAX as u64) {
                        return Err(DecodeError::TypeMismatch);
                    } else {
                        *iv as u32
                    },
                    _ => {
                        return Err(DecodeError::TypeMismatch);
                    },
                },
            };
            let ti = match lookup_idx(pairs, &"type".to_owned()) {
                None => {
                    return Err(DecodeError::MissingField);
                },
                Some(ti) => ti,
            };
            let tag = match &pairs[ti].1 {
                Json::Str(tag) => tag,
                _ => {
                    return Err(DecodeError::TypeMismatch);
                },
            };
            if !is_known_tag(tag) {
                return Err(DecodeError::UnknownTag);
            }
            let di = match lookup_idx(pairs, &"data".to_owned()) {
                None => {
                    return Err(DecodeError::MissingField);
                },
                Some(di) => di,
            };
            match data_from_json(tag, &pairs[di].1) {
                Err(e) => Err(e),
                Ok(d) => Ok(ASTNode { id, data: d }),
            }
        },
        _ => Err(DecodeError::TypeMismatch),
    }
}

pub fn nodes_from_json(items: &Vec<Json>) -> (r: Result<Vec<ASTNode>, DecodeError>)
    ensures
        match r {
            Ok(v) => spec_nodes_from_json(arr_view(items@)) == Ok::<Seq<NodeV>, DecodeError>(
                nodes_view(v),
            ),
            Err(e) => spec_nodes_from_json(arr_view(items@)) == Err::<Seq<NodeV>, DecodeError>(e),
        },
    decreases *items,
{
    let ghost av = arr_view(items@);
    let mut out: Vec<ASTNode> = Vec::new();
    let ghost acc = Seq::<NodeV>::empty();
    let n = items.len();
    proof {
        assert(av.skip(0) =~= av);
    }
    for i in 0..n
        invariant
            n == items.len(),
            av == arr_view(items@),
            out@.len() == i,
            acc.len() == i as int,
            forall|q: int| 0 <= q < i ==> acc[q] == node_view(#[trigger] out@[q]),
            spec_nodes_from_json(av) == (match spec_nodes_from_json(av.skip(i as int)) {
                Ok(rest) => Ok::<Seq<NodeV>, DecodeError>(acc + rest),
                Err(e) => Err::<Seq<NodeV>, DecodeError>(e),
            }),
    {
        proof {
            assert(av.skip(i as int).len() > 0);
            assert(av.skip(i as int)[0] == av[i as int]);
            assert(av.skip(i as int).drop_first() =~= av.skip(i + 1));
            assert(av[i as int] == json_view(items@[i as int]));
        }
        match from_json(&items[i]) {
            Err(e) => {
                proof {
                    assert(spec_nodes_from_json(av.skip(i as int)) == Err::<
                        Seq<NodeV>,
                        DecodeError,
                    >(e));
                }
                return Err(e);
            },
            Ok(t) => {
                proof {
                    if spec_nodes_from_json(av.skip(i + 1)) is Ok {
                        let rest = spec_nodes_from_json(av.skip(i + 1))->Ok_0;
                        assert(spec_nodes_from_json(av.skip(i as int)) == Ok::<
                            Seq<NodeV>,
                            DecodeError,
                        >(seq![t@] + rest));
                        assert(acc + (seq![t@] + rest) =~= (acc + seq![t@]) + rest);
                    }
                }
                out.push(t);
                proof {
                    acc = acc + seq![t@];
                }
            },
        }
    }
    proof {
        assert(av.skip(n as int) =~= Seq::<JsonV>::empty());
        assert(spec_nodes_from_json(Seq::<JsonV>::empty()) == Ok::<Seq<NodeV>, DecodeError>(
            Seq::empty(),
        ));
        assert(acc + Seq::<NodeV>::empty() =~= acc);
        assert(nodes_view(out) =~= acc);
    }
    Ok(out)
}

pub fn branches_from_json(items: &Vec<Json>) -> (r: Result<Vec<If>, DecodeError>)
    ensures
        match r {
            Ok(v) => spec_branches_from_json(arr_view(items@)) == Ok::<Seq<IfV>, DecodeError>(
                ifs_view(v),
            ),
            Err(e) => spec_branches_from_json(arr_view(items@)) == Err::<Seq<IfV>, DecodeError>(
                e,
            ),
        },
    decreases *items,
{
    let ghost av = arr_view(items@);
    let mut out: Vec<If> = Vec::new();
    let ghost acc = Seq::<IfV>::empty();
    let n = items.len();
    proof {
        assert(av.skip(0) =~= av);
    }
    for i in 0..n
        invariant
            n == items.len(),
            av == arr_view(items@),
            out@.len() == i,
            acc.len() == i as int,
            forall|q: int| 0 <= q < i ==> acc[q] == if_view(#[trigger] out@[q]),
            spec_branches_from_json(av) == (match spec_branches_from_json(av.skip(i as int)) {
                Ok(rest) => Ok::<Seq<IfV>, DecodeError>(acc + rest),
                Err(e) => Err::<Seq<IfV>, DecodeError>(e),
            }),
    {
        proof {
            assert(av.skip(i as int).len() > 0);
            assert(av.skip(i as int)[0] == av[i as int]);
            assert(av.skip(i as int).drop_first() =~= av.skip(i + 1));
            assert(av[i as int] == json_view(items@[i as int]));
        }
        match branch_from_json(&items[i]) {
            Err(e) => {
                proof {
                    assert(spec_branches_from_json(av.skip(i as int)) == Err::<
                        Seq<IfV>,
                        DecodeError,
                    >(e));
                }
                return Err(e);
            },
            Ok(b) => {
                proof {
                    if spec_branches_from_json(av.skip(i + 1)) is Ok {
                        let rest = spec_branches_from_json(av.skip(i + 1))->Ok_0;
                        assert(spec_branches_from_json(av.skip(i as int)) == Ok::<
                            Seq<IfV>,
                            DecodeError,
                        >(seq![if_view(b)] + rest));
                        assert(acc + (seq![if_view(b)] + rest) =~= (acc + seq![if_view(b)])
                            + rest);
                    }
                }
                let ghost bv = if_view(b);
                out.push(b);
                proof {
                    acc = acc + seq![bv];
                }
            },
        }
    }
    proof {
        assert(av.skip(n as int) =~= Seq::<JsonV>::empty());
        assert(spec_branches_from_json(Seq::<JsonV>::empty()) == Ok::<Seq<IfV>, DecodeError>(
            Seq::empty(),
        ));
        assert(acc + Seq::<IfV>::empty() =~= acc);
        assert(ifs_view(out) =~= acc);
    }
    Ok(out)
}

/// Read a branch back from its JSON document.
pub fn branch_from_json(j: &Json) -> (r: Result<If, DecodeError>)
    ensures
        match r {
            Ok(b) => spec_branch_from_json(j@) == Ok::<IfV, DecodeError>(if_view(b)),
            Err(e) => spec_branch_from_json(j@) == Err::<IfV, DecodeError>(e),
        },
    decreases *j,
{
    match j {
        Json::Obj(pairs) => {
            let ci = match lookup_idx(pairs, &"condition".to_owned()) {
                None => {
                    return Err(DecodeError::MissingField);
                },
                Some(ci) => ci,
            };
            let cond = match from_json(&pairs[ci].1) {
                Err(e) => {
                    return Err(e);
                },
                Ok(c) => c,
            };
            let si = match lookup_idx(pairs, &"sequence".to_owned()) {
                None => {
                    return Err(DecodeError::MissingField);
                },
                Some(si) => si,
            };
            match &pairs[si].1 {
                Json::Arr(items) => match nodes_from_json(items) {
                    Err(e) => Err(e),
                    Ok(ns) => Ok(If { condition: Box::new(cond), sequence: ns }),
                },
                _ => Err(DecodeError::TypeMismatch),
            }
        },
        _ => Err(DecodeError::TypeMismatch),
    }
}

/// Read a payload back from the JSON value under `data`, for a recognized
/// tag: the executable counterpart of `spec_data_from_json`.
pub fn data_from_json(tag: &String, d: &Json) -> (r: Result<ASTNodeData, DecodeError>)
    ensures
        match r {
            Ok(dd) => spec_data_from_json(tag@, d@) == Ok::<NodeDataV, DecodeError>(data_view(
                dd,
            )),
            Err(e) => spec_data_from_json(tag@, d@) == Err::<NodeDataV, DecodeError>(e),
        },
    decreases *d,
{
    if tag.eq(&"sequence".to_owned()) {
        match d {
            Json::Arr(items) => match nodes_from_json(items) {
                Err(e) => Err(e),
                Ok(ns) => Ok(ASTNodeData::Sequence(ns)),
            },
            _ => Err(DecodeError::TypeMismatch),
        }
    } else if tag.eq(&"while".to_owned()) {
        match d {
            Json::Obj(pairs) => {
                let is_do: bool = match lookup_idx(pairs, &"isDo".to_owned()) {
                    None => {
                        return Err(DecodeError::MissingField);
                    },
                    Some(bi) => match &pairs[bi].1 {
                        Json::Bool(b) => *b,
                        _ => {
                            return Err(DecodeError::TypeMismatch);
                        },
                    },
                };
                let ci = match lookup_idx(pairs, &"condition".to_owned()) {
                    None => {
                        return Err(DecodeError::MissingField);
                    },
                    Some(ci) => ci,
                };
                let cond = match from_json(&pairs[ci].1) {
                    Err(e) => {
                        return Err(e);
                    },
                    Ok(c) => c,
                };
                let si = match lookup_idx(pairs, &"sequence".to_owned()) {
                    None => {
                        return Err(DecodeError::MissingField);
                    },
                    Some(si) => si,
                };
                match &pairs[si].1 {
                    Json::Arr(items) => match nodes_from_json(items) {
                        Err(e) => Err(e),
                        Ok(ns) => Ok(
                            ASTNodeData::While(
                                While { is_do, condition: Box::new(cond), sequence: ns },
                            ),
                        ),
                    },
                    _ => Err(DecodeError::TypeMismatch),
                }
            },
            _ => Err(DecodeError::TypeMismatch),
        }
    } else if tag.eq(&"ifElse".to_owned()) {
        match d {
            Json::Obj(pairs) => {
                let ii = match lookup_idx(pairs, &"if".to_owned()) {
                    None => {
                        return Err(DecodeError::MissingField);
                    },
                    Some(ii) => ii,
                };
                let ifb = match branch_from_json(&pairs[ii].1) {
                    Err(e) => {
                        return Err(e);
                    },
                    Ok(b) => b,
                };
                let elif: Option<Vec<If>> = match lookup_idx(pairs, &"elif".to_owned()) {
                    None => None,
                    Some(ei) => match &pairs[ei].1 {
                        Json::Null => None,
                        Json::Arr(items) => if items.len() == 0 {
                            return Err(DecodeError::TypeMismatch);
                        } else {
                            match branches_from_json(items) {
                                Err(e) => {
                                    return Err(e);
                                },
                                Ok(bs) => Some(bs),
                            }
                        },
                        _ => {
                            return Err(DecodeError::TypeMismatch);
                        },
                    },
                };
                let els: Option<If> = match lookup_idx(pairs, &"else".to_owned()) {
                    None => None,
                    Some(li) => match &pairs[li].1 {
                        Json::Null => None,
                        _ => match branch_from_json(&pairs[li].1) {
                            Err(e) => {
                                return Err(e);
                            },
                            Ok(b) => Some(b),
                        },
                    },
                };
                Ok(ASTNodeData::IfElse(IfElse { if_: ifb, elif, else_: els }))
            },
            _ => Err(DecodeError::TypeMismatch),
        }
    } else if tag.eq(&"input".to_owned()) {
        match d {
            Json::Str(s) => Ok(ASTNodeData::Input(s.clone())),
            _ => Err(DecodeError::TypeMismatch),
        }
    } else if tag.eq(&"variableAssignment".to_owned()) {
        match d {
            Json::Obj(pairs) => {
                let name: String = match lookup_idx(pairs, &"name".to_owned()) {
                    None => {
                        return Err(DecodeError::MissingField);
                    },
                    Some(ni) => match &pairs[ni].1 {
                        Json::Str(nm) => nm.clone(),
                        _ => {
                            return Err(DecodeError::TypeMismatch);
                        },
                    },
                };
                let vi = match lookup_idx(pairs, &"value".to_owned()) {
                    None => {
                        return Err(DecodeError::MissingField);
                    },
                    Some(vi) => vi,
                };
                match from_json(&pairs[vi].1) {
                    Err(e) => Err(e),
                    Ok(v) => Ok(
                        ASTNodeData::VariableAssignment(
                            VariableAssignment { name, value: Box::new(v) },
                        ),
                    ),
                }
            },
            _ => Err(DecodeError::TypeMismatch),
        }
    } else if tag.eq(&"functionCall".to_owned()) {
        match d {
            Json::Obj(pairs) => {
                let name: String = match lookup_idx(pairs, &"name".to_owned()) {
                    None => {
                        return Err(DecodeError::MissingField);
                    },
                    Some(ni) => match &pairs[ni].1 {
                        Json::Str(nm) => nm.clone(),
                        _ => {
                            return Err(DecodeError::TypeMismatch);
                        },
                    },
                };
                let is_builtin: bool = match lookup_idx(pairs, &"isBuiltin".to_owned()) {
                    None => {
                        return Err(DecodeError::MissingField);
                    },
                    Some(bi) => match &pairs[bi].1 {
                        Json::Bool(b) => *b,
                        _ => {
                            return Err(DecodeError::TypeMismatch);
                        },
                    },
                };
                let ai = match lookup_idx(pairs, &"argv".to_owned()) {
                    None => {
                        return Err(DecodeError::MissingField);
                    },
                    Some(ai) => ai,
                };
                match &pairs[ai].1 {
                    Json::Arr(items) => match nodes_from_json(items) {
                        Err(e) => Err(e),
                        Ok(ns) => Ok(
                            ASTNodeData::FunctionCall(
                                Function { name, is_builtin, argv: ns },
                            ),
                        ),
                    },
                    _ => Err(DecodeError::TypeMismatch),
                }
            },
            _ => Err(DecodeError::TypeMismatch),
        }
    } else {
        Err(DecodeError::UnknownTag)
    }
}

/// The canonical text of a tree: its JSON document, printed with no
/// whitespace and keys in the fixed order.
pub open spec fn spec_encode(v: NodeV) -> Seq<char> {
    spec_print(spec_node_json(v))
}

/// Encode a tree as its canonical tagged-JSON text. Total: every tree has
/// exactly one encoding, and `decode` reads it back.
pub fn encode(n: &ASTNode) -> (r: String)
    ensures
        r@ == spec_encode(n@),
{
    let j = to_json(n);
    let mut buf: Vec<char> = Vec::new();
    write_json(&j, &mut buf);
    proof {
        assert(buf@ =~= spec_encode(n@));
    }
    chars_to_string(&buf)
}

/// Decode tagged-JSON text into a tree, or reject it with the reason.
/// Whitespace between tokens and any order of object keys are accepted;
/// decoding is all-or-nothing: a rejected text yields only the typed error,
/// never a tree. Two clauses pin the behaviour down: text equal to the
/// canonical encoding of a well-formed tree decodes to exactly that tree
/// (with `encode`'s contract, the round-trip law); and text equal to the
/// canonical printing of *any* JSON document yields exactly what
/// `spec_node_from_json` says of that document -- the same tree, or the
/// same one of the typed errors, `UnknownTag`, `MissingField` and
/// `TypeMismatch` included.
pub fn decode(s: &str) -> (r: Result<ASTNode, DecodeError>)
    ensures
        forall|v: NodeV| s@ == spec_encode(v) && wf_node(v) ==> (match r {
            Ok(t) => t@ == v,
            Err(_) => false,
        }),
        forall|jv: JsonV| s@ == spec_print(jv) ==> (match (r, spec_node_from_json(jv)) {
            (Ok(t), Ok(v)) => t@ == v,
            (Err(e1), Err(e2)) => e1 == e2,
            _ => false,
        }),
{
    let cs = str_to_chars(s);
    let start = skip_ws(&cs, 0);
    proof {
        assert forall|jv: JsonV| s@ == spec_print(jv) implies printed_at(
            cs@,
            0,
            jv,
            Seq::<char>::empty(),
        ) && start == 0 by {
            assert(cs@.skip(0) =~= cs@);
            assert(spec_print(jv) + Seq::<char>::empty() =~= cs@);
            assert(printed_at(cs@, 0, jv, Seq::<char>::empty()));
            lemma_printed_at_first(cs@, 0, jv, Seq::<char>::empty());
            lemma_print_shape(jv);
            assert(!is_ws(cs@[0]));
        }
    }
    match parse_json_at(&cs, start) {
        Err(e) => {
            proof {
                assert forall|jv: JsonV| s@ == spec_print(jv) implies false by {
                    assert(printed_at(cs@, 0, jv, Seq::<char>::empty()));
                }
            }
            Err(e)
        },
        Ok((j, m)) => {
            proof {
                assert forall|jv: JsonV| s@ == spec_print(jv) implies j@ == jv && m
                    == cs@.len() by {
                    assert(printed_at(cs@, 0, jv, Seq::<char>::empty()));
                }
            }
            let end = skip_ws(&cs, m);
            if end != cs.len() {
                proof {
                    assert forall|jv: JsonV| s@ == spec_print(jv) implies false by {
                        assert(m == cs@.len());
                    }
                }
                return Err(DecodeError::Syntax);
            }
            let out = from_json(&j);
            proof {
                assert forall|jv: JsonV| s@ == spec_print(jv) implies (match (
                    out,
                    spec_node_from_json(jv),
                ) {
                    (Ok(t), Ok(v)) => t@ == v,
                    (Err(e1), Err(e2)) => e1 == e2,
                    _ => false,
                }) by {
                    assert(j@ == jv);
                }
                assert forall|v: NodeV| s@ == spec_encode(v) && wf_node(v) implies (match out {
                    Ok(t) => t@ == v,
                    Err(_) => false,
                }) by {
                    lemma_node_round_trip(v);
                    assert(s@ == spec_print(spec_node_json(v)));
                    assert(spec_node_from_json(j@) == Ok::<NodeV, DecodeError>(v));
                }
            }
            out
        },
    }
}

/// Tag closure: a document whose `type` is a string other than the six
/// recognized tags is rejected with `UnknownTag`, whatever its payload,
/// provided its `id` is a number in range.
pub proof fn lemma_unknown_tag(pairs: Seq<(Seq<char>, JsonV)>, iv: u64, tag: Seq<char>)
    requires
        spec_lookup(pairs, "id"@) == Some(JsonV::Int(iv)),
        iv <= u32::MAX as u64,
        spec_lookup(pairs, "type"@) == Some(JsonV::Str(tag)),
        !spec_is_known_tag(tag),
    ensures
        spec_node_from_json(JsonV::Obj(pairs)) == Err::<NodeV, DecodeError>(
            DecodeError::UnknownTag,
        ),
{
}

/// Field completeness: a `while` payload without the `isDo` key is rejected
/// with `MissingField`, whatever else it holds.
pub proof fn lemma_while_missing_is_do(d: JsonV)
    requires
        d is Obj,
        spec_lookup(d->Obj_0, "isDo"@) is None,
    ensures
        spec_data_from_json("while"@, d) == Err::<NodeDataV, DecodeError>(
            DecodeError::MissingField,
        ),
{
    lemma_key_distinct();
}

/// Order preservation: the document of a sequence node lists the documents
/// of its children in their stored order, one per position.
pub proof fn lemma_sequence_order(ns: Seq<NodeV>)
    ensures
        spec_data_json(NodeDataV::Sequence(ns)) == JsonV::Arr(spec_nodes_json(ns)),
        spec_nodes_json(ns).len() == ns.len(),
        forall|q: int|
            0 <= q < ns.len() ==> #[trigger] spec_nodes_json(ns)[q] == spec_node_json(ns[q]),
{
}

/// Equality is id-sensitive: trees that differ in one node's identifier are
/// different trees, here witnessed for a child of a sequence node.
pub proof fn lemma_eq_id_sensitive(v1: NodeV, v2: NodeV, q: int)
    requires
        v1.data is Sequence,
        v2.data is Sequence,
        0 <= q < v1.data->Sequence_0.len(),
        q < v2.data->Sequence_0.len(),
        v1.data->Sequence_0[q].id != v2.data->Sequence_0[q].id,
    ensures
        v1 != v2,
{
}

} // verus!
