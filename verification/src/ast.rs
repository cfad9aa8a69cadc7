use vstd::prelude::*;

verus! {

broadcast use vstd::std_specs::vec::axiom_vec_index_decreases;

/// One element of the syntax tree: a producer-assigned identifier together
/// with exactly one variant payload. Identifiers are expected to be unique
/// within a tree, but this layer trusts the producer and never checks that.
#[derive(Debug, PartialEq)]
pub struct ASTNode {
    pub id: u32,
    pub data: ASTNodeData,
}

/// The closed set of node payloads. Adding or removing a variant is a
/// breaking change to the wire format.
#[derive(Debug, PartialEq)]
pub enum ASTNodeData {
    Sequence(Vec<ASTNode>),
    While(While),
    IfElse(IfElse),
    Input(String),
    VariableAssignment(VariableAssignment),
    FunctionCall(Function),
}

/// A loop. When `is_do` is true the body runs before the condition is first
/// evaluated (do-while); otherwise the condition is evaluated first.
#[derive(Debug, PartialEq)]
pub struct While {
    pub is_do: bool,
    pub condition: Box<ASTNode>,
    pub sequence: Vec<ASTNode>,
}

/// A `(condition, body)` pair, used for the `if` branch, each `elif` entry,
/// and the `else` branch (whose condition is carried but semantically unused).
#[derive(Debug, PartialEq)]
pub struct If {
    pub condition: Box<ASTNode>,
    pub sequence: Vec<ASTNode>,
}

/// A conditional: the `if` branch, optional `elif` branches tried in order,
/// and an optional `else` branch.
#[derive(Debug, PartialEq)]
pub struct IfElse {
    pub if_: If,
    pub elif: Option<Vec<If>>,
    pub else_: Option<If>,
}

/// Binds the result of evaluating `value` to `name` in an external
/// environment.
#[derive(Debug, PartialEq)]
pub struct VariableAssignment {
    pub name: String,
    pub value: Box<ASTNode>,
}

/// Invocation of a named function; `is_builtin` flags whether the name
/// resolves against the host's builtin table.
#[derive(Debug, PartialEq)]
pub struct Function {
    pub name: String,
    pub is_builtin: bool,
    pub argv: Vec<ASTNode>,
}

/// Mathematical model of a node: the identifier and the modelled payload.
/// Equality of models is deep, id-sensitive structural equality.
#[verifier::ext_equal]
pub ghost struct NodeV {
    pub id: u32,
    pub data: NodeDataV,
}

/// Mathematical model of a node payload.
#[verifier::ext_equal]
pub ghost enum NodeDataV {
    Sequence(Seq<NodeV>),
    While(WhileV),
    IfElse(IfElseV),
    Input(Seq<char>),
    VariableAssignment(AssignV),
    FunctionCall(CallV),
}

#[verifier::ext_equal]
pub ghost struct WhileV {
    pub is_do: bool,
    pub condition: Box<NodeV>,
    pub sequence: Seq<NodeV>,
}

#[verifier::ext_equal]
pub ghost struct IfV {
    pub condition: Box<NodeV>,
    pub sequence: Seq<NodeV>,
}

#[verifier::ext_equal]
pub ghost struct IfElseV {
    pub if_: IfV,
    pub elif: Option<Seq<IfV>>,
    pub else_: Option<IfV>,
}

#[verifier::ext_equal]
pub ghost struct AssignV {
    pub name: Seq<char>,
    pub value: Box<NodeV>,
}

#[verifier::ext_equal]
pub ghost struct CallV {
    pub name: Seq<char>,
    pub is_builtin: bool,
    pub argv: Seq<NodeV>,
}

pub open spec fn node_view(n: ASTNode) -> NodeV
    decreases n,
{
    NodeV { id: n.id, data: data_view(n.data) }
}

pub open spec fn nodes_view(v: Vec<ASTNode>) -> Seq<NodeV>
    decreases v,
{
    Seq::new(v@.len(), |i: int| if 0 <= i < v@.len() { node_view(v[i]) } else { arbitrary() })
}

pub open spec fn ifs_view(v: Vec<If>) -> Seq<IfV>
    decreases v,
{
    Seq::new(v@.len(), |i: int| if 0 <= i < v@.len() { if_view(v[i]) } else { arbitrary() })
}

pub open spec fn if_view(b: If) -> IfV
    decreases b,
{
    IfV { condition: Box::new(node_view(*b.condition)), sequence: nodes_view(b.sequence) }
}

pub open spec fn data_view(d: ASTNodeData) -> NodeDataV
    decreases d,
{
    match d {
        ASTNodeData::Sequence(v) => NodeDataV::Sequence(nodes_view(v)),
        ASTNodeData::While(w) => NodeDataV::While(
            WhileV {
                is_do: w.is_do,
                condition: Box::new(node_view(*w.condition)),
                sequence: nodes_view(w.sequence),
            },
        ),
        ASTNodeData::IfElse(ie) => NodeDataV::IfElse(
            IfElseV {
                if_: if_view(ie.if_),
                elif: match ie.elif {
                    Some(bs) => Some(ifs_view(bs)),
                    None => None,
                },
                else_: match ie.else_ {
                    Some(b) => Some(if_view(b)),
                    None => None,
                },
            },
        ),
        ASTNodeData::Input(s) => NodeDataV::Input(s@),
        ASTNodeData::VariableAssignment(a) => NodeDataV::VariableAssignment(
            AssignV { name: a.name@, value: Box::new(node_view(*a.value)) },
        ),
        ASTNodeData::FunctionCall(f) => NodeDataV::FunctionCall(
            CallV { name: f.name@, is_builtin: f.is_builtin, argv: nodes_view(f.argv) },
        ),
    }
}

impl View for ASTNode {
    type V = NodeV;

    open spec fn view(&self) -> NodeV {
        node_view(*self)
    }
}

/// A well-formed tree model: every `elif` list that is present is
/// non-empty. An empty `elif` is a forbidden encoding, so only well-formed
/// trees take part in the round-trip law.
pub open spec fn wf_node(n: NodeV) -> bool
    decreases n, 1int,
{
    wf_data(n.data)
}

pub open spec fn wf_nodes(ns: Seq<NodeV>) -> bool
    decreases ns, ns.len(),
{
    if ns.len() == 0 {
        true
    } else {
        wf_node(ns[0]) && wf_nodes(ns.drop_first())
    }
}

pub open spec fn wf_branch(b: IfV) -> bool
    decreases b, 1int,
{
    wf_node(*b.condition) && wf_nodes(b.sequence)
}

pub open spec fn wf_branches(bs: Seq<IfV>) -> bool
    decreases bs, bs.len(),
{
    if bs.len() == 0 {
        true
    } else {
        wf_branch(bs[0]) && wf_branches(bs.drop_first())
    }
}

pub open spec fn wf_data(d: NodeDataV) -> bool
    decreases d, 0int,
{
    match d {
        NodeDataV::Sequence(ns) => wf_nodes(ns),
        NodeDataV::While(w) => wf_node(*w.condition) && wf_nodes(w.sequence),
        NodeDataV::IfElse(ie) => wf_branch(ie.if_) && (match ie.elif {
            Some(bs) => bs.len() > 0 && wf_branches(bs),
            None => true,
        }) && (match ie.else_ {
            Some(b) => wf_branch(b),
            None => true,
        }),
        NodeDataV::Input(_) => true,
        NodeDataV::VariableAssignment(a) => wf_node(*a.value),
        NodeDataV::FunctionCall(f) => wf_nodes(f.argv),
    }
}

/// Model of the worked example tree: a program that binds an age, raises it
/// in a loop until it reaches thirteen, and reports along the way.
pub open spec fn ast_example_v() -> NodeV {
    NodeV {
        id: 0,
        data: NodeDataV::Sequence(
            seq![
                NodeV {
                    id: 1,
                    data: NodeDataV::VariableAssignment(
                        AssignV {
                            name: "age de Bob"@,
                            value: Box::new(NodeV { id: 2, data: NodeDataV::Input("6"@) }),
                        },
                    ),
                },
                NodeV {
                    id: 3,
                    data: NodeDataV::While(
                        WhileV {
                            is_do: false,
                            condition: Box::new(
                                NodeV { id: 4, data: NodeDataV::Input("{age de Bob} < 13"@) },
                            ),
                            sequence: seq![
                                NodeV {
                                    id: 5,
                                    data: NodeDataV::VariableAssignment(
                                        AssignV {
                                            name: "age de Bob"@,
                                            value: Box::new(
                                                NodeV {
                                                    id: 6,
                                                    data: NodeDataV::Input("{age de Bob} + 1"@),
                                                },
                                            ),
                                        },
                                    ),
                                },
                                NodeV {
                                    id: 7,
                                    data: NodeDataV::FunctionCall(
                                        CallV {
                                            name: "print"@,
                                            is_builtin: true,
                                            argv: seq![
                                                NodeV {
                                                    id: 8,
                                                    data: NodeDataV::Input(
                                                        "Bravo Bob ! tu as maintenant \"{age de Bob}\" ans !"@,
                                                    ),
                                                },
                                            ],
                                        },
                                    ),
                                },
                            ],
                        },
                    ),
                },
                NodeV {
                    id: 9,
                    data: NodeDataV::FunctionCall(
                        CallV {
                            name: "print"@,
                            is_builtin: true,
                            argv: seq![
                                NodeV {
                                    id: 10,
                                    data: NodeDataV::Input(
                                        "Bob est parti a l'age de {age de Bob} !"@,
                                    ),
                                },
                            ],
                        },
                    ),
                },
            ],
        ),
    }
}

/// The worked example tree itself.
pub fn ast_example() -> (r: ASTNode)
    ensures
        r@ == ast_example_v(),
{
    let n1 = ASTNode {
        id: 1,
        data: ASTNodeData::VariableAssignment(
            VariableAssignment {
                name: "age de Bob".to_owned(),
                value: Box::new(ASTNode { id: 2, data: ASTNodeData::Input("6".to_owned()) }),
            },
        ),
    };
    proof {
        let a = n1.data->VariableAssignment_0;
        let av = n1@.data->VariableAssignment_0;
        assert(av.value == Box::new(node_view(*a.value)));
        assert(*av.value == node_view(*a.value));
        assert(n1@ =~~= ast_example_v().data->Sequence_0[0]);
    }
    let n5 = ASTNode {
        id: 5,
        data: ASTNodeData::VariableAssignment(
            VariableAssignment {
                name: "age de Bob".to_owned(),
                value: Box::new(
                    ASTNode { id: 6, data: ASTNodeData::Input("{age de Bob} + 1".to_owned()) },
                ),
            },
        ),
    };
    let mut argv7: Vec<ASTNode> = Vec::new();
    argv7.push(
        ASTNode {
            id: 8,
            data: ASTNodeData::Input(
                "Bravo Bob ! tu as maintenant \"{age de Bob}\" ans !".to_owned(),
            ),
        },
    );
    let n7 = ASTNode {
        id: 7,
        data: ASTNodeData::FunctionCall(
            Function { name: "print".to_owned(), is_builtin: true, argv: argv7 },
        ),
    };
    proof {
        let wv = ast_example_v().data->Sequence_0[1].data->While_0;
        let a5 = n5.data->VariableAssignment_0;
        let av5 = n5@.data->VariableAssignment_0;
        assert(av5.value == Box::new(node_view(*a5.value)));
        assert(*av5.value == node_view(*a5.value));
        assert(n5@ =~~= wv.sequence[0]);
        let g7 = n7.data->FunctionCall_0;
        assert(g7.argv@.len() == 1);
        assert(nodes_view(g7.argv)[0] == node_view(g7.argv@[0]));
        assert(node_view(g7.argv@[0]) =~~= wv.sequence[1].data->FunctionCall_0.argv[0]);
        assert(nodes_view(g7.argv) =~~= wv.sequence[1].data->FunctionCall_0.argv);
        assert(n7@ =~~= wv.sequence[1]);
    }
    let ghost gn5 = n5@;
    let ghost gn7 = n7@;
    let mut body3: Vec<ASTNode> = Vec::new();
    body3.push(n5);
    body3.push(n7);
    let n3 = ASTNode {
        id: 3,
        data: ASTNodeData::While(
            While {
                is_do: false,
                condition: Box::new(
                    ASTNode { id: 4, data: ASTNodeData::Input("{age de Bob} < 13".to_owned()) },
                ),
                sequence: body3,
            },
        ),
    };
    proof {
        let w = n3.data->While_0;
        let wv = n3@.data->While_0;
        assert(wv.condition == Box::new(node_view(*w.condition)));
        assert(*wv.condition == node_view(*w.condition));
        assert(w.sequence@.len() == 2);
        assert(node_view(w.sequence@[0]) == gn5);
        assert(node_view(w.sequence@[1]) == gn7);
        assert(nodes_view(w.sequence)[0] == node_view(w.sequence@[0]));
        assert(nodes_view(w.sequence)[1] == node_view(w.sequence@[1]));
        let wvs = ast_example_v().data->Sequence_0[1].data->While_0;
        assert(nodes_view(w.sequence) =~~= wvs.sequence);
        assert(n3@ =~~= ast_example_v().data->Sequence_0[1]);
    }
    let mut argv9: Vec<ASTNode> = Vec::new();
    argv9.push(
        ASTNode {
            id: 10,
            data: ASTNodeData::Input("Bob est parti a l'age de {age de Bob} !".to_owned()),
        },
    );
    let n9 = ASTNode {
        id: 9,
        data: ASTNodeData::FunctionCall(
            Function { name: "print".to_owned(), is_builtin: true, argv: argv9 },
        ),
    };
    proof {
        let g9 = n9.data->FunctionCall_0;
        let sv9 = ast_example_v().data->Sequence_0[2];
        assert(g9.argv@.len() == 1);
        assert(nodes_view(g9.argv)[0] == node_view(g9.argv@[0]));
        assert(node_view(g9.argv@[0]) =~~= sv9.data->FunctionCall_0.argv[0]);
        assert(nodes_view(g9.argv) =~~= sv9.data->FunctionCall_0.argv);
        assert(n9@ =~~= sv9);
    }
    let ghost gtop1 = n1@;
    let ghost gtop3 = n3@;
    let ghost gtop9 = n9@;
    let mut top: Vec<ASTNode> = Vec::new();
    top.push(n1);
    top.push(n3);
    top.push(n9);
    let r = ASTNode { id: 0, data: ASTNodeData::Sequence(top) };
    proof {
        let tv = r.data->Sequence_0;
        assert(tv@.len() == 3);
        assert(node_view(tv@[0]) == gtop1);
        assert(node_view(tv@[1]) == gtop3);
        assert(node_view(tv@[2]) == gtop9);
        assert(nodes_view(tv)[0] == node_view(tv@[0]));
        assert(nodes_view(tv)[1] == node_view(tv@[1]));
        assert(nodes_view(tv)[2] == node_view(tv@[2]));
        assert(nodes_view(tv) =~~= ast_example_v().data->Sequence_0);
        assert(r@ =~~= ast_example_v());
    }
    r
}

/// The identifiers of a subtree in depth-first order: each node before its
/// children, children in declared field order (a loop's condition before its
/// body; a conditional's if branch, then each elif in order, then else;
/// arguments and statement lists in stored order).
pub open spec fn spec_dfs(n: NodeV) -> Seq<u32>
    decreases n, 1int,
{
    seq![n.id] + spec_dfs_data(n.data)
}

pub open spec fn spec_dfs_list(ns: Seq<NodeV>) -> Seq<u32>
    decreases ns, ns.len(),
{
    if ns.len() == 0 {
        Seq::empty()
    } else {
        spec_dfs(ns[0]) + spec_dfs_list(ns.drop_first())
    }
}

pub open spec fn spec_dfs_branch(b: IfV) -> Seq<u32>
    decreases b, 1int,
{
    spec_dfs(*b.condition) + spec_dfs_list(b.sequence)
}

pub open spec fn spec_dfs_branches(bs: Seq<IfV>) -> Seq<u32>
    decreases bs, bs.len(),
{
    if bs.len() == 0 {
        Seq::empty()
    } else {
        spec_dfs_branch(bs[0]) + spec_dfs_branches(bs.drop_first())
    }
}

pub open spec fn spec_dfs_data(d: NodeDataV) -> Seq<u32>
    decreases d, 0int,
{
    match d {
        NodeDataV::Sequence(ns) => spec_dfs_list(ns),
        NodeDataV::While(w) => spec_dfs(*w.condition) + spec_dfs_list(w.sequence),
        NodeDataV::IfElse(ie) => spec_dfs_branch(ie.if_) + (match ie.elif {
            Some(bs) => spec_dfs_branches(bs),
            None => Seq::empty(),
        }) + (match ie.else_ {
            Some(b) => spec_dfs_branch(b),
            None => Seq::empty(),
        }),
        NodeDataV::Input(_) => Seq::empty(),
        NodeDataV::VariableAssignment(a) => spec_dfs(*a.value),
        NodeDataV::FunctionCall(f) => spec_dfs_list(f.argv),
    }
}

/// Append the identifiers of the nodes under `v`, depth first and in order.
#[verifier::loop_isolation(false)]
pub fn push_dfs_list(v: &Vec<ASTNode>, out: &mut Vec<u32>)
    ensures
        final(out)@ == old(out)@.add(spec_dfs_list(nodes_view(*v))),
    decreases *v,
{
    let ghost base = out@;
    let ghost ns = nodes_view(*v);
    let n = v.len();
    proof {
        assert(ns.skip(0) =~= ns);
    }
    for i in 0..n
        invariant
            n == v@.len(),
            ns == nodes_view(*v),
            out@.add(spec_dfs_list(ns.skip(i as int))) =~= base.add(spec_dfs_list(ns)),
    {
        proof {
            assert(ns.skip(i as int)[0] == ns[i as int]);
            assert(ns.skip(i as int).drop_first() =~= ns.skip(i + 1));
            assert(ns[i as int] == node_view(v[i as int]));
        }
        let ghost before = out@;
        push_dfs(&v[i], out);
        proof {
            assert(before.add(spec_dfs(ns[i as int])).add(spec_dfs_list(ns.skip(i + 1)))
                =~= before.add(spec_dfs(ns[i as int]) + spec_dfs_list(ns.skip(i + 1))));
        }
    }
    proof {
        assert(ns.skip(n as int) =~= Seq::<NodeV>::empty());
        assert(out@.add(Seq::<u32>::empty()) =~= out@);
    }
}

/// Append the identifiers under one branch: its condition, then its body.
pub fn push_dfs_branch(b: &If, out: &mut Vec<u32>)
    ensures
        final(out)@ == old(out)@.add(spec_dfs_branch(if_view(*b))),
    decreases *b,
{
    let ghost base = out@;
    push_dfs(&b.condition, out);
    push_dfs_list(&b.sequence, out);
    proof {
        assert(out@ =~= base.add(spec_dfs_branch(if_view(*b))));
    }
}

/// Append this subtree's identifiers, the node itself first.
#[verifier::loop_isolation(false)]
pub fn push_dfs(n: &ASTNode, out: &mut Vec<u32>)
    ensures
        final(out)@ == old(out)@.add(spec_dfs(n@)),
    decreases *n,
{
    let ghost base = out@;
    out.push(n.id);
    match &n.data {
        ASTNodeData::Sequence(v) => {
            push_dfs_list(v, out);
        },
        ASTNodeData::While(w) => {
            push_dfs(&w.condition, out);
            push_dfs_list(&w.sequence, out);
        },
        ASTNodeData::IfElse(ie) => {
            push_dfs_branch(&ie.if_, out);
            match &ie.elif {
                Some(bs) => {
                    let ghost base2 = out@;
                    let ghost bv = ifs_view(*bs);
                    let m = bs.len();
                    proof {
                        assert(bv.skip(0) =~= bv);
                    }
                    for i in 0..m
                        invariant
                            m == bs@.len(),
                            bv == ifs_view(*bs),
                            out@.add(spec_dfs_branches(bv.skip(i as int))) =~= base2.add(
                                spec_dfs_branches(bv),
                            ),
                    {
                        proof {
                            assert(bv.skip(i as int)[0] == bv[i as int]);
                            assert(bv.skip(i as int).drop_first() =~= bv.skip(i + 1));
                            assert(bv[i as int] == if_view(bs[i as int]));
                        }
                        let ghost before = out@;
                        push_dfs_branch(&bs[i], out);
                        proof {
                            assert(before.add(spec_dfs_branch(bv[i as int])).add(
                                spec_dfs_branches(bv.skip(i + 1)),
                            ) =~= before.add(
                                spec_dfs_branch(bv[i as int]) + spec_dfs_branches(bv.skip(i + 1)),
                            ));
                        }
                    }
                    proof {
                        assert(bv.skip(m as int) =~= Seq::<IfV>::empty());
                        assert(out@.add(Seq::<u32>::empty()) =~= out@);
                    }
                },
                None => {},
            }
            match &ie.else_ {
                Some(b) => {
                    push_dfs_branch(b, out);
                },
                None => {},
            }
        },
        ASTNodeData::Input(_) => {},
        ASTNodeData::VariableAssignment(a) => {
            push_dfs(&a.value, out);
        },
        ASTNodeData::FunctionCall(f) => {
            push_dfs_list(&f.argv, out);
        },
    }
    proof {
        assert(out@ =~= base.add(spec_dfs(n@)));
    }
}

impl ASTNode {
    /// The identifiers of this tree, depth first, each node before its
    /// children and children in declared field order.
    pub fn dfs_ids(&self) -> (r: Vec<u32>)
        ensures
            r@ == spec_dfs(self@),
    {
        let mut out: Vec<u32> = Vec::new();
        push_dfs(self, &mut out);
        proof {
            assert(out@ =~= spec_dfs(self@));
        }
        out
    }
}

} // verus!
