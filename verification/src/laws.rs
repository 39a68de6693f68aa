//! Properties that hold of the whole toolchain, stated and proved over
//! the same specifications the executable code is verified against.

use vstd::prelude::*;
use crate::objgen::{
    GenState, GenErrView, ArgAdd, InstrView, SectionView, spec_load_program, spec_gen_load,
    spec_gen_step, spec_resolve_args, spec_resolve_define, spec_find_define, instr_disjoint,
    ref_at, const_at,
};
use crate::parser::{NodeView, NodeTypeView};
use crate::symbols::ArgumentTypes;
use crate::linker::{LinkSecView, spec_arg_emit, spec_ref_find, spec_const_find, spec_resolve,
    spec_arg_width};
use crate::objgen::{spec_value_bytes, ConstantSize};
use vstd::bytes::{spec_u32_from_le_bytes, lemma_auto_spec_u32_to_from_le_bytes};

verus! {

/// No section holds both instructions and binary units.
pub open spec fn sections_exclusive(ss: Seq<SectionView>) -> bool {
    forall|k: int| 0 <= k < ss.len()
        ==> !((#[trigger] ss[k]).instructions.len() > 0 && ss[k].binary_data.len() > 0)
}

/// Updating one section that keeps the property, or appending an empty
/// one, keeps the property everywhere.
proof fn lemma_exclusive_update(ss: Seq<SectionView>, k: int, sec: SectionView)
    requires
        sections_exclusive(ss),
        0 <= k < ss.len(),
        !(sec.instructions.len() > 0 && sec.binary_data.len() > 0),
    ensures
        sections_exclusive(ss.update(k, sec)),
{
    assert forall|m: int| 0 <= m < ss.update(k, sec).len() implies
        !((#[trigger] ss.update(k, sec)[m]).instructions.len() > 0
            && ss.update(k, sec)[m].binary_data.len() > 0) by {
        if m != k {
            assert(ss.update(k, sec)[m] == ss[m]);
            assert(!(ss[m].instructions.len() > 0 && ss[m].binary_data.len() > 0));
        }
    }
}

proof fn lemma_exclusive_push(ss: Seq<SectionView>, sec: SectionView)
    requires
        sections_exclusive(ss),
        !(sec.instructions.len() > 0 && sec.binary_data.len() > 0),
    ensures
        sections_exclusive(ss.push(sec)),
{
    assert forall|m: int| 0 <= m < ss.push(sec).len() implies
        !((#[trigger] ss.push(sec)[m]).instructions.len() > 0
            && ss.push(sec)[m].binary_data.len() > 0) by {
        if m < ss.len() {
            assert(ss.push(sec)[m] == ss[m]);
            assert(!(ss[m].instructions.len() > 0 && ss[m].binary_data.len() > 0));
        }
    }
}

#[verifier::rlimit(100)]
proof fn lemma_step_exclusive(
    st: GenState,
    node: NodeView,
    lbl: Seq<char>,
    floats: Seq<(Seq<char>, u64)>,
    files: Seq<(Seq<char>, Seq<u8>)>,
)
    requires
        sections_exclusive(st.sections),
        spec_gen_step(st, node, lbl, floats, files) is Ok,
    ensures
        sections_exclusive(spec_gen_step(st, node, lbl, floats, files)->Ok_0.0.sections),
{
    let st2 = spec_gen_step(st, node, lbl, floats, files)->Ok_0.0;
    match node.node_type {
        NodeTypeView::CompilerInstruction(name) => {
            if name == "section"@ {
                if st2.sections.len() == st.sections.len() {
                } else {
                    lemma_exclusive_push(st.sections, st2.sections.last());
                    assert(st2.sections =~= st.sections.push(st2.sections.last()));
                }
            } else if name == "define"@ {
            } else {
                if st2.sections != st.sections {
                    crate::objgen::lemma_find_section(st.sections, st.current_section);
                    let k = crate::objgen::spec_find_section(st.sections,
                        st.current_section)->Some_0;
                    lemma_exclusive_update(st.sections, k, st2.sections[k]);
                    assert(st2.sections =~= st.sections.update(k, st2.sections[k]));
                }
            }
        },
        NodeTypeView::Instruction(name) => {
            if st2.sections != st.sections {
                crate::objgen::lemma_find_section(st.sections, st.current_section);
                let k = crate::objgen::spec_find_section(st.sections,
                    st.current_section)->Some_0;
                lemma_exclusive_update(st.sections, k, st2.sections[k]);
                assert(st2.sections =~= st.sections.update(k, st2.sections[k]));
            }
        },
        NodeTypeView::Label(name) => {
            if st2.sections != st.sections {
                crate::objgen::lemma_find_section(st.sections, st.current_section);
                let k = crate::objgen::spec_find_section(st.sections,
                    st.current_section)->Some_0;
                lemma_exclusive_update(st.sections, k, st2.sections[k]);
                assert(st2.sections =~= st.sections.update(k, st2.sections[k]));
            }
        },
        _ => {},
    }
}

proof fn lemma_load_exclusive(
    st: GenState,
    nodes: Seq<NodeView>,
    i: nat,
    lbl: Seq<char>,
    floats: Seq<(Seq<char>, u64)>,
    files: Seq<(Seq<char>, Seq<u8>)>,
)
    requires
        i <= nodes.len(),
        sections_exclusive(st.sections),
        spec_gen_load(st, nodes, i, lbl, floats, files) is Ok,
    ensures
        sections_exclusive(spec_gen_load(st, nodes, i, lbl, floats, files)->Ok_0.sections),
    decreases nodes.len() - i,
{
    if i < nodes.len() {
        let step = spec_gen_step(st, nodes[i as int], lbl, floats, files);
        lemma_step_exclusive(st, nodes[i as int], lbl, floats, files);
        lemma_load_exclusive(step->Ok_0.0, nodes, i + 1, step->Ok_0.1, floats, files);
    }
}

/// Section mode exclusivity: loading a program into an object whose
/// sections each hold only one kind of content leaves every section that
/// way — none ever holds both instructions and binary units.
pub proof fn lemma_mode_exclusivity(
    st: GenState,
    root: NodeView,
    floats: Seq<(Seq<char>, u64)>,
    files: Seq<(Seq<char>, Seq<u8>)>,
)
    requires
        sections_exclusive(st.sections),
        spec_load_program(st, root, floats, files) is Ok,
    ensures
        sections_exclusive(spec_load_program(st, root, floats, files)->Ok_0.sections),
{
    lemma_load_exclusive(st, root.children, 0, Seq::empty(), floats, files);
}

/// Every instruction of every section has disjoint reference and constant
/// positions.
pub open spec fn sections_disjoint(ss: Seq<SectionView>) -> bool {
    forall|k: int, m: int|
        0 <= k < ss.len() && 0 <= m < (#[trigger] ss[k]).instructions.len()
            ==> instr_disjoint(#[trigger] ss[k].instructions[m])
}

/// Updating one section whose instructions are all disjoint, or appending
/// one, keeps the property everywhere.
proof fn lemma_disjoint_update(ss: Seq<SectionView>, k: int, sec: SectionView)
    requires
        sections_disjoint(ss),
        0 <= k < ss.len(),
        forall|m: int| 0 <= m < sec.instructions.len()
            ==> instr_disjoint(#[trigger] sec.instructions[m]),
    ensures
        sections_disjoint(ss.update(k, sec)),
{
    assert forall|k2: int, m: int|
        0 <= k2 < ss.update(k, sec).len()
            && 0 <= m < (#[trigger] ss.update(k, sec)[k2]).instructions.len() implies
        instr_disjoint(#[trigger] ss.update(k, sec)[k2].instructions[m]) by {
        if k2 != k {
            assert(ss.update(k, sec)[k2] == ss[k2]);
            assert(instr_disjoint(ss[k2].instructions[m]));
        }
    }
}

proof fn lemma_disjoint_push(ss: Seq<SectionView>, sec: SectionView)
    requires
        sections_disjoint(ss),
        forall|m: int| 0 <= m < sec.instructions.len()
            ==> instr_disjoint(#[trigger] sec.instructions[m]),
    ensures
        sections_disjoint(ss.push(sec)),
{
    assert forall|k2: int, m: int|
        0 <= k2 < ss.push(sec).len()
            && 0 <= m < (#[trigger] ss.push(sec)[k2]).instructions.len() implies
        instr_disjoint(#[trigger] ss.push(sec)[k2].instructions[m]) by {
        if k2 < ss.len() {
            assert(ss.push(sec)[k2] == ss[k2]);
            assert(instr_disjoint(ss[k2].instructions[m]));
        }
    }
}

#[verifier::rlimit(100)]
proof fn lemma_step_disjoint(
    st: GenState,
    node: NodeView,
    lbl: Seq<char>,
    floats: Seq<(Seq<char>, u64)>,
    files: Seq<(Seq<char>, Seq<u8>)>,
)
    requires
        sections_disjoint(st.sections),
        spec_gen_step(st, node, lbl, floats, files) is Ok,
    ensures
        sections_disjoint(spec_gen_step(st, node, lbl, floats, files)->Ok_0.0.sections),
{
    let st2 = spec_gen_step(st, node, lbl, floats, files)->Ok_0.0;
    if st2.sections == st.sections {
        assert(sections_disjoint(st2.sections));
    } else {
        match node.node_type {
            NodeTypeView::Instruction(name) => {
                crate::objgen::lemma_find_section(st.sections, st.current_section);
                let k0 = crate::objgen::spec_find_section(st.sections,
                    st.current_section)->Some_0;
                crate::symbols::lemma_opcode_has_instruction(name);
                let opcode = crate::symbols::spec_opcode(name)->Some_0;
                let row = crate::symbols::spec_instruction(opcode)->Some_0;
                crate::symbols::lemma_row_args_len(opcode);
                lemma_reference_constant_disjoint(st.defines, node.children, row.1, lbl,
                    floats, opcode);
                let picked = spec_resolve_args(st.defines, node.children, row.1, 0, lbl,
                    floats)->Ok_0;
                let instr = InstrView { opcode, references: picked.0, constants: picked.1 };
                assert(instr_disjoint(instr));
                assert(st2.sections =~= st.sections.update(k0, st2.sections[k0]));
                assert(st2.sections[k0].instructions
                    == st.sections[k0].instructions.push(instr));
                assert forall|m: int| 0 <= m < st2.sections[k0].instructions.len() implies
                    instr_disjoint(#[trigger] st2.sections[k0].instructions[m]) by {
                    if m < st.sections[k0].instructions.len() {
                        assert(st2.sections[k0].instructions[m]
                            == st.sections[k0].instructions[m]);
                        assert(instr_disjoint(st.sections[k0].instructions[m]));
                    } else {
                        assert(st2.sections[k0].instructions[m] == instr);
                    }
                }
                lemma_disjoint_update(st.sections, k0, st2.sections[k0]);
            },
            NodeTypeView::CompilerInstruction(name) => {
                if name == "section"@ {
                    if st2.sections.len() == st.sections.len() {
                        assert(st2.sections == st.sections);
                    } else {
                        assert(st2.sections =~= st.sections.push(st2.sections.last()));
                        assert(st2.sections.last().instructions.len() == 0);
                        lemma_disjoint_push(st.sections, st2.sections.last());
                    }
                } else if name == "define"@ {
                    assert(st2.sections == st.sections);
                } else {
                    crate::objgen::lemma_find_section(st.sections, st.current_section);
                    let k0 = crate::objgen::spec_find_section(st.sections,
                        st.current_section)->Some_0;
                    assert(st2.sections =~= st.sections.update(k0, st2.sections[k0]));
                    assert(st2.sections[k0].instructions == st.sections[k0].instructions);
                    assert forall|m: int| 0 <= m < st2.sections[k0].instructions.len()
                        implies instr_disjoint(
                            #[trigger] st2.sections[k0].instructions[m]) by {
                        assert(instr_disjoint(st.sections[k0].instructions[m]));
                    }
                    lemma_disjoint_update(st.sections, k0, st2.sections[k0]);
                }
            },
            NodeTypeView::Label(name) => {
                crate::objgen::lemma_find_section(st.sections, st.current_section);
                let k0 = crate::objgen::spec_find_section(st.sections,
                    st.current_section)->Some_0;
                assert(st2.sections =~= st.sections.update(k0, st2.sections[k0]));
                assert(st2.sections[k0].instructions == st.sections[k0].instructions);
                assert forall|m: int| 0 <= m < st2.sections[k0].instructions.len() implies
                    instr_disjoint(#[trigger] st2.sections[k0].instructions[m]) by {
                    assert(instr_disjoint(st.sections[k0].instructions[m]));
                }
                lemma_disjoint_update(st.sections, k0, st2.sections[k0]);
            },
            _ => {},
        }
    }
}

proof fn lemma_load_disjoint(
    st: GenState,
    nodes: Seq<NodeView>,
    i: nat,
    lbl: Seq<char>,
    floats: Seq<(Seq<char>, u64)>,
    files: Seq<(Seq<char>, Seq<u8>)>,
)
    requires
        i <= nodes.len(),
        sections_disjoint(st.sections),
        spec_gen_load(st, nodes, i, lbl, floats, files) is Ok,
    ensures
        sections_disjoint(spec_gen_load(st, nodes, i, lbl, floats, files)->Ok_0.sections),
    decreases nodes.len() - i,
{
    if i < nodes.len() {
        let step = spec_gen_step(st, nodes[i as int], lbl, floats, files);
        lemma_step_disjoint(st, nodes[i as int], lbl, floats, files);
        lemma_load_disjoint(step->Ok_0.0, nodes, i + 1, step->Ok_0.1, floats, files);
    }
}

/// Reference/constant disjointness over a whole load: if every instruction
/// of the object's sections is disjoint going in, every instruction of
/// every section is disjoint when loading a program succeeds.
pub proof fn lemma_load_keeps_disjointness(
    st: GenState,
    root: NodeView,
    floats: Seq<(Seq<char>, u64)>,
    files: Seq<(Seq<char>, Seq<u8>)>,
)
    requires
        sections_disjoint(st.sections),
        spec_load_program(st, root, floats, files) is Ok,
    ensures
        sections_disjoint(spec_load_program(st, root, floats, files)->Ok_0.sections),
{
    lemma_load_disjoint(st, root.children, 0, Seq::empty(), floats, files);
}

proof fn lemma_resolve_args_positions(
    defines: Seq<(Seq<char>, NodeView)>,
    children: Seq<NodeView>,
    args: Seq<ArgumentTypes>,
    i: nat,
    lbl: Seq<char>,
    floats: Seq<(Seq<char>, u64)>,
)
    requires
        i <= children.len(),
        children.len() == args.len(),
        children.len() <= 255,
        spec_resolve_args(defines, children, args, i, lbl, floats) is Ok,
    ensures
        ({
            let (refs, consts) = spec_resolve_args(defines, children, args, i, lbl,
                floats)->Ok_0;
            &&& forall|m: int| 0 <= m < refs.len()
                ==> i <= (#[trigger] refs[m]).argument_pos < children.len()
            &&& forall|m: int| 0 <= m < consts.len()
                ==> i <= (#[trigger] consts[m]).argument_pos < children.len()
        }),
    decreases children.len() - i,
{
    if i < children.len() {
        lemma_resolve_args_positions(defines, children, args, i + 1, lbl, floats);
        let add = spec_resolve_arg_pos(defines, children, args, i, lbl, floats);
    }
}

/// The position resolving argument `i` writes into whatever it adds.
proof fn spec_resolve_arg_pos(
    defines: Seq<(Seq<char>, NodeView)>,
    children: Seq<NodeView>,
    args: Seq<ArgumentTypes>,
    i: nat,
    lbl: Seq<char>,
    floats: Seq<(Seq<char>, u64)>,
)
    requires
        i < children.len(),
        children.len() <= 255,
        crate::objgen::spec_resolve_arg(defines, children[i as int], args[i as int], i as u8,
            lbl, floats) is Ok,
    ensures
        match crate::objgen::spec_resolve_arg(defines, children[i as int], args[i as int],
            i as u8, lbl, floats)->Ok_0 {
            ArgAdd::Const(c) => c.argument_pos == i,
            ArgAdd::Ref(r) => r.argument_pos == i,
            ArgAdd::Nothing => true,
        },
{
    lemma_resolve_define_pos(defines, i as u8, args[i as int], children[i as int], floats, 0);
}

proof fn lemma_resolve_define_pos(
    defines: Seq<(Seq<char>, NodeView)>,
    arg: u8,
    expected: ArgumentTypes,
    node: NodeView,
    floats: Seq<(Seq<char>, u64)>,
    depth: nat,
)
    requires
        depth <= 101,
    ensures
        match spec_resolve_define(defines, arg, expected, node, floats, depth) {
            Ok(a) => match a {
                ArgAdd::Const(c) => c.argument_pos == arg,
                ArgAdd::Ref(r) => r.argument_pos == arg,
                ArgAdd::Nothing => true,
            },
            Err(e) => true,
        },
    decreases 101 - depth,
{
    if node.node_type matches NodeTypeView::Identifier(_) && depth <= 100 {
        let iden = node.node_type->Identifier_0;
        match spec_find_define(defines, iden) {
            Some(nd) => {
                lemma_resolve_define_pos(defines, arg, expected, nd, floats, depth + 1);
            },
            None => {},
        }
    }
}

/// Reference/constant disjointness: the references and constants an
/// instruction's arguments resolve to never share an argument position,
/// so no emitted instruction carries both at one position.
pub proof fn lemma_reference_constant_disjoint(
    defines: Seq<(Seq<char>, NodeView)>,
    children: Seq<NodeView>,
    args: Seq<ArgumentTypes>,
    lbl: Seq<char>,
    floats: Seq<(Seq<char>, u64)>,
    opcode: u16,
)
    requires
        children.len() == args.len(),
        children.len() <= 255,
        spec_resolve_args(defines, children, args, 0, lbl, floats) is Ok,
    ensures
        ({
            let (refs, consts) = spec_resolve_args(defines, children, args, 0, lbl,
                floats)->Ok_0;
            instr_disjoint(InstrView { opcode, references: refs, constants: consts })
        }),
{
    lemma_resolve_args_disjoint(defines, children, args, 0, lbl, floats);
    let (refs, consts) = spec_resolve_args(defines, children, args, 0, lbl, floats)->Ok_0;
    let iv = InstrView { opcode, references: refs, constants: consts };
    assert forall|pos: u8| !(#[trigger] ref_at(iv, pos) && const_at(iv, pos)) by {
        if ref_at(iv, pos) && const_at(iv, pos) {
            let m1 = choose|m1: int| 0 <= m1 < refs.len() && refs[m1].argument_pos == pos;
            let m2 = choose|m2: int| 0 <= m2 < consts.len() && consts[m2].argument_pos == pos;
        }
    }
}

proof fn lemma_resolve_args_disjoint(
    defines: Seq<(Seq<char>, NodeView)>,
    children: Seq<NodeView>,
    args: Seq<ArgumentTypes>,
    i: nat,
    lbl: Seq<char>,
    floats: Seq<(Seq<char>, u64)>,
)
    requires
        i <= children.len(),
        children.len() == args.len(),
        children.len() <= 255,
        spec_resolve_args(defines, children, args, i, lbl, floats) is Ok,
    ensures
        ({
            let (refs, consts) = spec_resolve_args(defines, children, args, i, lbl,
                floats)->Ok_0;
            &&& forall|m: int| 0 <= m < refs.len()
                ==> i <= (#[trigger] refs[m]).argument_pos < children.len()
            &&& forall|m: int| 0 <= m < consts.len()
                ==> i <= (#[trigger] consts[m]).argument_pos < children.len()
            &&& forall|m1: int, m2: int|
                0 <= m1 < refs.len() && 0 <= m2 < consts.len()
                    ==> (#[trigger] refs[m1]).argument_pos
                        != (#[trigger] consts[m2]).argument_pos
        }),
    decreases children.len() - i,
{
    if i < children.len() {
        lemma_resolve_args_disjoint(defines, children, args, i + 1, lbl, floats);
        spec_resolve_arg_pos(defines, children, args, i, lbl, floats);
    }
}

/// Define resolution depth: a chain of aliases that, hop by hop, reaches a
/// terminal binding within the depth limit resolves exactly as the
/// terminal does.  `names` lists the chain; each name is bound to an
/// identifier naming the next, the last to the terminal node.
#[verifier::rlimit(100)]
pub proof fn lemma_define_chain_resolves(
    defines: Seq<(Seq<char>, NodeView)>,
    arg: u8,
    expected: ArgumentTypes,
    names: Seq<Seq<char>>,
    terminal: NodeView,
    floats: Seq<(Seq<char>, u64)>,
    depth: nat,
)
    requires
        1 <= names.len(),
        depth + names.len() <= 101,
        forall|j: int| 0 <= j < names.len() - 1
            ==> spec_find_define(defines, #[trigger] names[j]) == Some(NodeView {
                node_type: NodeTypeView::Identifier(names[j + 1]),
                children: Seq::<NodeView>::empty(),
            }),
        spec_find_define(defines, names.last()) == Some(terminal),
        !(terminal.node_type matches NodeTypeView::Identifier(_)),
    ensures
        spec_resolve_define(defines, arg, expected, NodeView {
            node_type: NodeTypeView::Identifier(names[0]),
            children: Seq::<NodeView>::empty(),
        }, floats, depth)
            == spec_resolve_define(defines, arg, expected, terminal, floats,
                (depth + names.len()) as nat),
    decreases names.len(),
{
    if names.len() == 1 {
    } else {
        assert(names.drop_first().last() == names.last());
        assert forall|j: int| 0 <= j < names.drop_first().len() - 1 implies
            spec_find_define(defines, #[trigger] names.drop_first()[j]) == Some(NodeView {
                node_type: NodeTypeView::Identifier(names.drop_first()[j + 1]),
                children: Seq::<NodeView>::empty(),
            }) by {
            assert(names.drop_first()[j] == names[j + 1]);
            assert(names.drop_first()[j + 1] == names[j + 2]);
        }
        assert(names.drop_first()[0] == names[1]);
        lemma_define_chain_resolves(defines, arg, expected, names.drop_first(), terminal,
            floats, depth + 1);
    }
}

/// Define resolution depth: names that only ever chase further defined
/// identifiers never reach a value, and resolution reports looping
/// defines once the depth limit runs out.  `looping` marks the set of
/// names caught in the cycle.
pub proof fn lemma_define_cycle_errors(
    defines: Seq<(Seq<char>, NodeView)>,
    arg: u8,
    expected: ArgumentTypes,
    looping: spec_fn(Seq<char>) -> bool,
    start: Seq<char>,
    floats: Seq<(Seq<char>, u64)>,
    depth: nat,
)
    requires
        depth <= 101,
        looping(start),
        forall|n: Seq<char>| #[trigger] looping(n)
            ==> spec_find_define(defines, n) is Some
                && (spec_find_define(defines, n)->Some_0.node_type matches
                    NodeTypeView::Identifier(n2) && looping(n2)),
    ensures
        spec_resolve_define(defines, arg, expected, NodeView {
            node_type: NodeTypeView::Identifier(start),
            children: Seq::<NodeView>::empty(),
        }, floats, depth) == Err::<ArgAdd, GenErrView>(GenErrView::LoopingDefines),
    decreases 101 - depth,
{
    if depth > 100 {
    } else {
        let nd = spec_find_define(defines, start)->Some_0;
        let next = nd.node_type->Identifier_0;
        lemma_define_cycle_errors(defines, arg, expected, looping, next, floats, depth + 1);
        assert(spec_resolve_define(defines, arg, expected, nd, floats, depth + 1)
            == spec_resolve_define(defines, arg, expected, NodeView {
                node_type: NodeTypeView::Identifier(next),
                children: nd.children,
            }, floats, depth + 1));
        assert(spec_resolve_define(defines, arg, expected, NodeView {
            node_type: NodeTypeView::Identifier(next),
            children: nd.children,
        }, floats, depth + 1) == spec_resolve_define(defines, arg, expected, NodeView {
            node_type: NodeTypeView::Identifier(next),
            children: Seq::<NodeView>::empty(),
        }, floats, depth + 1));
    }
}

/// Define resolution depth: a chain of aliases longer than the remaining
/// budget never reaches a value; resolution reports looping defines.
#[verifier::rlimit(100)]
pub proof fn lemma_define_chain_too_deep(
    defines: Seq<(Seq<char>, NodeView)>,
    arg: u8,
    expected: ArgumentTypes,
    names: Seq<Seq<char>>,
    floats: Seq<(Seq<char>, u64)>,
    depth: nat,
)
    requires
        depth <= 101,
        depth + names.len() >= 102,
        names.len() >= 1,
        forall|j: int| 0 <= j < names.len() - 1
            ==> spec_find_define(defines, #[trigger] names[j]) == Some(NodeView {
                node_type: NodeTypeView::Identifier(names[j + 1]),
                children: Seq::<NodeView>::empty(),
            }),
    ensures
        spec_resolve_define(defines, arg, expected, NodeView {
            node_type: NodeTypeView::Identifier(names[0]),
            children: Seq::<NodeView>::empty(),
        }, floats, depth) == Err::<ArgAdd, GenErrView>(GenErrView::LoopingDefines),
    decreases names.len(),
{
    if depth > 100 {
    } else {
        assert(names.len() >= 2);
        assert(names.drop_first()[0] == names[1]);
        assert forall|j: int| 0 <= j < names.drop_first().len() - 1 implies
            spec_find_define(defines, #[trigger] names.drop_first()[j]) == Some(NodeView {
                node_type: NodeTypeView::Identifier(names.drop_first()[j + 1]),
                children: Seq::<NodeView>::empty(),
            }) by {
            assert(names.drop_first()[j] == names[j + 1]);
            assert(names.drop_first()[j + 1] == names[j + 2]);
        }
        lemma_define_chain_too_deep(defines, arg, expected, names.drop_first(), floats,
            depth + 1);
    }
}

/// Relative jumps: for a relative-pointer argument, the four bytes the
/// linker emits are the little-endian encoding of the resolved target
/// address minus the instruction's own address, taken in 32 bits.
#[verifier::rlimit(100)]
pub proof fn lemma_relative_jump_bytes(
    links: Seq<LinkSecView>,
    symbols: Seq<SectionView>,
    i: InstrView,
    args: Seq<ArgumentTypes>,
    pos: u8,
    start: u64,
)
    requires
        spec_const_find(i.constants, pos) is None,
        spec_ref_find(i.references, pos) matches Some(k),
        (pos as int) < args.len(),
        args[pos as int] == ArgumentTypes::RelPointer,
        spec_resolve(links, symbols,
            i.references[spec_ref_find(i.references, pos)->Some_0].rf) is Some,
    ensures
        ({
            let addr = spec_resolve(links, symbols,
                i.references[spec_ref_find(i.references, pos)->Some_0].rf)->Some_0;
            let delta = (addr as i64).wrapping_sub(start as i64);
            &&& spec_arg_emit(links, symbols, i, args, pos, start)
                == Some(spec_value_bytes(delta, ConstantSize::DoubleWord))
            &&& spec_value_bytes(delta, ConstantSize::DoubleWord).len() == 4
            &&& spec_u32_from_le_bytes(spec_value_bytes(delta, ConstantSize::DoubleWord))
                == (addr.wrapping_sub(start)) as u32
        }),
{
    lemma_auto_spec_u32_to_from_le_bytes();
    let addr = spec_resolve(links, symbols,
        i.references[spec_ref_find(i.references, pos)->Some_0].rf)->Some_0;
    let delta = (addr as i64).wrapping_sub(start as i64);
    assert(spec_arg_width(args[pos as int]) == ConstantSize::DoubleWord);
    assert((delta as i32) as u32 == (addr.wrapping_sub(start)) as u32) by (bit_vector)
        requires
            delta == (addr as i64).wrapping_sub(start as i64),
    ;
    assert(spec_arg_emit(links, symbols, i, args, pos, start)
        == Some(spec_value_bytes(delta, ConstantSize::DoubleWord)));
    assert(spec_value_bytes(delta, ConstantSize::DoubleWord).len() == 4);
    assert(spec_u32_from_le_bytes(spec_value_bytes(delta, ConstantSize::DoubleWord))
        == (addr.wrapping_sub(start)) as u32);
}

} // verus!