use crate::arg_calls::{
    constant_keys, defs_of, emit, emit_jump, find_constant, first_match, frags_view, frames_of,
    is_first_match, lemma_resolution_size, resolve, resolve_within, Resolution, Resolved,
};
use crate::ast::{
    jumps_view, log_view, AstSpan, ConstVal, Contract, Jump, JumpModel, JumpTable, MacroDefinition,
    MacroInvocation, Span, StatementType,
};
use crate::error::{CodegenError, CodegenErrorKind};
use crate::opcodes::{
    encode_push, lemma_push_encoding_len, placeholder_encoding, push_encoding, JUMPDEST, PUSH2,
};
use vstd::prelude::*;

verus! {

/// A label defined while expanding the invocation numbered `frame`.
#[derive(Clone, Debug, PartialEq, Eq)]
pub struct LabelSite {
    pub frame: usize,
    pub name: String,
    pub offset: usize,
}

/// What expansion has produced so far.
pub struct Expansion {
    /// Byte fragments, each with its starting offset.
    pub bytes: Vec<(usize, Vec<u8>)>,
    /// Offset of the next byte.
    pub offset: usize,
    pub jump_table: JumpTable,
    /// For each insertion into the jump table, the invocation frames whose
    /// labels it can see, innermost first.
    pub visible: Vec<Vec<usize>>,
    /// For each insertion into the jump table, the offset of the placeholder
    /// it patches.
    pub sites: Vec<usize>,
    pub labels: Vec<LabelSite>,
    /// Spans of the references to a parameter that the invocation gave no
    /// argument for; each emitted nothing.
    pub missing_args: Vec<AstSpan>,
    /// Number the next invocation gets; frame 0 is the entry macro.
    pub next_index: usize,
}

/// The mathematical content of an [`Expansion`].
pub struct ExpansionModel {
    pub frags: Seq<(usize, Seq<u8>)>,
    pub offset: usize,
    pub jumps: Seq<(usize, Seq<JumpModel>)>,
    pub visible: Seq<Seq<usize>>,
    pub sites: Seq<usize>,
    pub labels: Seq<(usize, Seq<char>, usize)>,
    pub missing_args: Seq<Seq<Span>>,
    pub next_index: usize,
}

/// The frame chains of a list, as sequences.
pub open spec fn visible_view(v: Seq<Vec<usize>>) -> Seq<Seq<usize>> {
    v.map_values(|f: Vec<usize>| f@)
}

/// Labels as (frame, name, offset) triples.
pub open spec fn labels_view(v: Seq<LabelSite>) -> Seq<(usize, Seq<char>, usize)> {
    v.map_values(|l: LabelSite| (l.frame, l.name@, l.offset))
}

impl View for Expansion {
    type V = ExpansionModel;

    open spec fn view(&self) -> ExpansionModel {
        ExpansionModel {
            frags: frags_view(self.bytes@),
            offset: self.offset,
            jumps: log_view(self.jump_table.history()),
            visible: visible_view(self.visible@),
            sites: self.sites@,
            labels: labels_view(self.labels@),
            missing_args: self.missing_args@.map_values(|a: AstSpan| a@),
            next_index: self.next_index,
        }
    }
}

impl Expansion {
    /// Nothing emitted yet.
    pub fn new() -> (r: Expansion)
        ensures
            r@ == initial_model(),
            r.visible@.len() == r.jump_table.history().len(),
            r.sites@.len() == r.jump_table.history().len(),
    {
        let r = Expansion {
            bytes: Vec::new(),
            offset: 0,
            jump_table: JumpTable::new(),
            visible: Vec::new(),
            sites: Vec::new(),
            labels: Vec::new(),
            missing_args: Vec::new(),
            next_index: 1,
        };
        assert(r@.frags =~= Seq::empty());
        assert(r@.jumps =~= Seq::empty());
        assert(r@.visible =~= Seq::empty());
        assert(r@.sites =~= Seq::empty());
        assert(r@.labels =~= Seq::empty());
        assert(r@.missing_args =~= Seq::empty());
        r
    }
}

/// The state before anything is expanded.
pub open spec fn initial_model() -> ExpansionModel {
    ExpansionModel {
        frags: Seq::empty(),
        offset: 0,
        jumps: Seq::empty(),
        visible: Seq::empty(),
        sites: Seq::empty(),
        labels: Seq::empty(),
        missing_args: Seq::empty(),
        next_index: 1,
    }
}

/// Number of the innermost invocation frame.
pub open spec fn current_frame(mis: Seq<(usize, MacroInvocation)>) -> usize {
    if mis.len() == 0 {
        0
    } else {
        mis.last().0
    }
}

/// The frames from the innermost invocation out to the entry macro.
pub open spec fn frame_chain(mis: Seq<(usize, MacroInvocation)>) -> Seq<usize>
    decreases mis.len(),
{
    if mis.len() == 0 {
        seq![0usize]
    } else {
        seq![mis.last().0] + frame_chain(mis.drop_last())
    }
}

/// A reference to a label: a placeholder, with the jump kept under the
/// number of the innermost frame.
pub open spec fn label_reference(name: Seq<char>, mis: Seq<(usize, MacroInvocation)>) -> Resolution {
    if mis.len() == 0 {
        Resolution::Jump { key: 0, label: name, span: Seq::empty() }
    } else {
        Resolution::Jump { key: mis.last().0, label: name, span: mis.last().1.span@ }
    }
}

/// A reference to a constant, which must exist.
/// A failure is located at the statement's spans `at`.
pub open spec fn constant_reference(name: String, c: Contract, at: Seq<Span>) -> Resolution {
    match first_match(constant_keys(c.constants@), name@) {
        Some(i) => match c.constants@[i].value {
            ConstVal::Literal(l) => Resolution::Emit(push_encoding(l@)),
            ConstVal::FreeStoragePointer => Resolution::Fail(
                CodegenErrorKind::StoragePointersNotDerived,
                at,
            ),
        },
        None => Resolution::Fail(CodegenErrorKind::MissingConstantDefinition(name), at),
    }
}

/// What a statement other than a label definition or an invocation emits.
pub open spec fn statement_resolution(
    ty: StatementType,
    at: Seq<Span>,
    def: MacroDefinition,
    c: Contract,
    scope: Seq<MacroDefinition>,
    mis: Seq<(usize, MacroInvocation)>,
    offset: usize,
) -> Resolution {
    match ty {
        StatementType::Opcode(b) => Resolution::Emit(seq![b]),
        StatementType::LiteralPush(l) => Resolution::Emit(push_encoding(l@)),
        StatementType::LabelRef(name) => label_reference(name@, mis),
        StatementType::ConstRef(name) => constant_reference(name, c, at),
        StatementType::ArgRef(name) => resolve(name@, def, c, scope, mis, offset),
        _ => Resolution::Skip,
    }
}

/// Why expansion fails: an error kind and the spans it is located at.
pub type Failure = (CodegenErrorKind, Seq<Span>);

/// The state after a resolution of the statement at spans `at` is emitted.
pub open spec fn apply(
    st: ExpansionModel,
    res: Resolution,
    mis: Seq<(usize, MacroInvocation)>,
    at: Seq<Span>,
) -> Result<ExpansionModel, Failure> {
    match res {
        Resolution::Emit(b) => Ok(
            ExpansionModel {
                frags: st.frags.push((st.offset, b)),
                offset: (st.offset + b.len()) as usize,
                ..st
            },
        ),
        Resolution::Jump { key, label, span } => Ok(
            ExpansionModel {
                frags: st.frags.push((st.offset, placeholder_encoding())),
                offset: (st.offset + 3) as usize,
                jumps: st.jumps.push((key, seq![JumpModel { label, bytecode_index: 0, span }])),
                visible: st.visible.push(frame_chain(mis)),
                sites: st.sites.push(st.offset),
                ..st
            },
        ),
        Resolution::Skip => Ok(ExpansionModel { missing_args: st.missing_args.push(at), ..st }),
        Resolution::Fail(k, sp) => Err((k, sp)),
    }
}

/// The names of a list of macros.
pub open spec fn macro_keys(ms: Seq<MacroDefinition>) -> Seq<Option<Seq<char>>> {
    ms.map_values(|m: MacroDefinition| Some(m.name@))
}

/// Expands the statements of `def` from the `i`-th on, from state `st`.
///
/// `scope` holds the definitions being expanded and `mis` the invocations
/// that led here, innermost last. An invocation is numbered, pushed on both
/// stacks while its macro's body is expanded, and popped. A macro cannot
/// appear twice on the stack: that expansion would never end, and it fails
/// instead.
pub open spec fn expand_from(
    c: Contract,
    def: MacroDefinition,
    scope: Seq<MacroDefinition>,
    mis: Seq<(usize, MacroInvocation)>,
    i: int,
    st: ExpansionModel,
) -> Result<ExpansionModel, Failure>
    decreases c.macros@.len() + 1 - scope.len(), def.statements@.len() - i,
{
    if i < 0 || i >= def.statements@.len() || scope.len() > c.macros@.len() + 1 {
        Ok(st)
    } else if st.offset > usize::MAX - 33 {
        Err((CodegenErrorKind::UsizeConversion(def.name), def.span@))
    } else {
        let next = match def.statements@[i].ty {
            StatementType::LabelDef(name) => Ok(
                ExpansionModel {
                    labels: st.labels.push((current_frame(mis), name@, st.offset)),
                    frags: st.frags.push((st.offset, seq![JUMPDEST])),
                    offset: (st.offset + 1) as usize,
                    ..st
                },
            ),
            StatementType::Invoke(mi) => match first_match(macro_keys(c.macros@), mi.macro_name@) {
                None => Err((CodegenErrorKind::InvalidMacroInvocation(mi.macro_name), mi.span@)),
                Some(m) => if scope.len() > c.macros@.len() {
                    Err((CodegenErrorKind::InvalidMacroStatement, mi.span@))
                } else if st.next_index == usize::MAX {
                    Err((CodegenErrorKind::UsizeConversion(mi.macro_name), mi.span@))
                } else {
                    let target = c.macros@[m];
                    expand_from(
                        c,
                        target,
                        scope.push(target),
                        mis.push((st.next_index, mi)),
                        0,
                        ExpansionModel { next_index: (st.next_index + 1) as usize, ..st },
                    )
                },
            },
            _ => apply(
                st,
                statement_resolution(def.statements@[i].ty, def.statements@[i].span@, def, c, scope, mis, st.offset),
                mis,
                def.statements@[i].span@,
            ),
        };
        match next {
            Ok(st2) => expand_from(c, def, scope, mis, i + 1, st2),
            Err(k) => Err(k),
        }
    }
}

/// Position of the first macro named `name`.
fn find_macro(macros: &Vec<MacroDefinition>, name: &String) -> (r: Option<usize>)
    ensures
        r is None ==> first_match(macro_keys(macros@), name@) is None,
        r matches Some(i) ==> first_match(macro_keys(macros@), name@) == Some(i as int),
{
    let ghost keys = macro_keys(macros@);
    let mut i: usize = 0;
    while i < macros.len()
        invariant
            i <= macros@.len(),
            keys == macro_keys(macros@),
            forall|j: int| 0 <= j < i ==> keys[j] != Some(name@),
        decreases macros@.len() - i,
    {
        if macros[i].name == *name {
            proof {
                let k = choose|k: int| is_first_match(keys, name@, k);
                assert(is_first_match(keys, name@, i as int));
                if k < i {
                    assert(keys[k] != Some(name@));
                }
                if i < k {
                    assert(keys[i as int] != Some(name@));
                }
            }
            return Some(i);
        }
        i = i + 1;
    }
    proof {
        if exists|k: int| is_first_match(keys, name@, k) {
            let k = choose|k: int| is_first_match(keys, name@, k);
            assert(keys[k] != Some(name@));
        }
    }
    None
}

/// The frames from the innermost invocation out to the entry macro.
fn visible_frames(mis: &Vec<(usize, &MacroInvocation)>) -> (r: Vec<usize>)
    ensures
        r@ == frame_chain(frames_of(mis@)),
{
    let mut v: Vec<usize> = Vec::new();
    let mut j: usize = mis.len();
    assert(mis@.subrange(0, j as int) == mis@);
    while j > 0
        invariant
            j <= mis@.len(),
            v@ + frame_chain(frames_of(mis@.subrange(0, j as int))) == frame_chain(frames_of(mis@)),
        decreases j,
    {
        let ghost rest = frames_of(mis@.subrange(0, j as int));
        assert(rest.drop_last() =~= frames_of(mis@.subrange(0, j - 1)));
        assert(frame_chain(rest) == seq![mis@[j - 1].0] + frame_chain(rest.drop_last()));
        assert(v@.push(mis@[j - 1].0) + frame_chain(rest.drop_last()) =~= v@ + frame_chain(rest));
        v.push(mis[j - 1].0);
        j = j - 1;
    }
    assert(frames_of(mis@.subrange(0, 0)) =~= Seq::empty());
    assert(v@.push(0usize) =~= v@ + seq![0usize]);
    v.push(0);
    v
}

/// Records, for a jump inserted since the table held `before` insertions,
/// the frames it can see and the placeholder at `site`.
fn note_jump(st: &mut Expansion, mis: &Vec<(usize, &MacroInvocation)>, before: usize, site: usize)
    requires
        old(st).visible@.len() == before,
        old(st).sites@.len() == before,
        old(st).jump_table.history().len() == before || old(st).jump_table.history().len() == before + 1,
    ensures
        final(st).visible@.len() == final(st).jump_table.history().len(),
        final(st).sites@.len() == final(st).jump_table.history().len(),
        final(st).bytes == old(st).bytes,
        final(st).offset == old(st).offset,
        final(st).jump_table == old(st).jump_table,
        final(st).labels == old(st).labels,
        final(st).next_index == old(st).next_index,
        final(st).missing_args == old(st).missing_args,
        old(st).jump_table.history().len() == before ==> final(st)@.visible == old(st)@.visible
            && final(st)@.sites == old(st)@.sites,
        old(st).jump_table.history().len() == before + 1 ==> final(st)@.visible == old(st)@.visible.push(frame_chain(frames_of(mis@)))
            && final(st)@.sites == old(st)@.sites.push(site),
{
    if st.jump_table.entries().len() > before {
        let f = visible_frames(mis);
        st.visible.push(f);
        st.sites.push(site);
        assert(visible_view(st.visible@) =~= visible_view(old(st).visible@).push(frame_chain(frames_of(mis@))));
    }
}

/// Expands the body of `def`, the innermost definition of `scope`, where
/// `mis` holds the invocations that led there; see [`expand_from`].
fn expand_within<'a>(
    def: &'a MacroDefinition,
    contract: &'a Contract,
    scope: &mut Vec<&'a MacroDefinition>,
    mis: &mut Vec<(usize, &'a MacroInvocation)>,
    st: &mut Expansion,
) -> (r: Result<(), CodegenError>)
    requires
        old(scope)@.len() <= contract.macros@.len() + 1,
        old(st).visible@.len() == old(st).jump_table.history().len(),
        old(st).sites@.len() == old(st).jump_table.history().len(),
    ensures
        final(scope)@ == old(scope)@,
        final(mis)@ == old(mis)@,
        r is Ok ==> final(st).visible@.len() == final(st).jump_table.history().len()
            && final(st).sites@.len() == final(st).jump_table.history().len(),
        match expand_from(*contract, *def, defs_of(old(scope)@), frames_of(old(mis)@), 0, old(st)@) {
            Ok(m) => r is Ok && final(st)@ == m,
            Err((k, sp)) => r matches Err(e) && e.kind == k && e.span@ == sp && e.token is None,
        },
    decreases contract.macros@.len() + 1 - old(scope)@.len(),
{
    let ghost sc = defs_of(scope@);
    let ghost ms = frames_of(mis@);
    let ghost st0 = st@;
    let ghost scope0 = scope@;
    let ghost mis0 = mis@;
    let mut i: usize = 0;
    while i < def.statements.len()
        invariant
            0 <= i <= def.statements@.len(),
            scope@ == scope0,
            mis@ == mis0,
            scope0 == old(scope)@,
            st0 == old(st)@,
            mis0 == old(mis)@,
            sc == defs_of(scope@),
            ms == frames_of(mis@),
            scope@.len() <= contract.macros@.len() + 1,
            st.visible@.len() == st.jump_table.history().len(),
            st.sites@.len() == st.jump_table.history().len(),
            expand_from(*contract, *def, sc, ms, 0, st0) == expand_from(*contract, *def, sc, ms, i as int, st@),
        decreases def.statements@.len() - i,
    {
        if st.offset > usize::MAX - 33 {
            return Err(
                CodegenError {
                    kind: CodegenErrorKind::UsizeConversion(def.name.clone()),
                    span: def.span.duplicate(),
                    token: None,
                },
            );
        }
        let ghost before = st@;
        let ghost before_table = st.jump_table;
        let stmt = &def.statements[i];
        let h = st.jump_table.entries().len();
        let site = st.offset;
        match &stmt.ty {
            StatementType::LabelDef(name) => {
                let frame = if mis.len() == 0 {
                    0
                } else {
                    mis[mis.len() - 1].0
                };
                st.labels.push(LabelSite { frame, name: name.clone(), offset: st.offset });
                let v: Vec<u8> = vec![JUMPDEST];
                assert(v@ =~= seq![JUMPDEST]);
                emit(&mut st.bytes, &mut st.offset, v);
                assert(st@.labels =~= before.labels.push((current_frame(ms), name@, before.offset)));
            },
            StatementType::Invoke(mi) => {
                match find_macro(&contract.macros, &mi.macro_name) {
                    None => {
                        return Err(
                            CodegenError {
                                kind: CodegenErrorKind::InvalidMacroInvocation(
                                    mi.macro_name.clone(),
                                ),
                                span: mi.span.duplicate(),
                                token: None,
                            },
                        );
                    },
                    Some(m) => {
                        if scope.len() > contract.macros.len() {
                            return Err(
                                CodegenError {
                                    kind: CodegenErrorKind::InvalidMacroStatement,
                                    span: mi.span.duplicate(),
                                    token: None,
                                },
                            );
                        }
                        if st.next_index == usize::MAX {
                            return Err(
                                CodegenError {
                                    kind: CodegenErrorKind::UsizeConversion(
                                        mi.macro_name.clone(),
                                    ),
                                    span: mi.span.duplicate(),
                                    token: None,
                                },
                            );
                        }
                        let target = &contract.macros[m];
                        let idx = st.next_index;
                        st.next_index = idx + 1;
                        scope.push(target);
                        mis.push((idx, mi));
                        assert(defs_of(scope@) =~= sc.push(*target));
                        assert(frames_of(mis@) =~= ms.push((idx, *mi)));
                        let res = expand_within(target, contract, scope, mis, st);
                        scope.pop();
                        mis.pop();
                        assert(scope@ =~= scope0);
                        assert(mis@ =~= mis0);
                        match res {
                            Err(e) => {
                                return Err(e);
                            },
                            Ok(()) => {},
                        }
                    },
                }
            },
            StatementType::Opcode(b) => {
                let v: Vec<u8> = vec![*b];
                assert(v@ =~= seq![*b]);
                emit(&mut st.bytes, &mut st.offset, v);
            },
            StatementType::LiteralPush(l) => {
                emit(&mut st.bytes, &mut st.offset, encode_push(l));
            },
            StatementType::LabelRef(name) => {
                let key = if mis.len() == 0 {
                    0
                } else {
                    mis[mis.len() - 1].0
                };
                let span = if mis.len() == 0 {
                    let none = AstSpan(Vec::new());
                    assert(none@ =~= Seq::<Span>::empty());
                    none
                } else {
                    mis[mis.len() - 1].1.span.duplicate()
                };
                emit_jump(&mut st.bytes, &mut st.offset, &mut st.jump_table, key, name.clone(), span);
                note_jump(st, mis, h, site);
            },
            StatementType::ConstRef(name) => {
                match find_constant(&contract.constants, name) {
                    None => {
                        return Err(
                            CodegenError {
                                kind: CodegenErrorKind::MissingConstantDefinition(name.clone()),
                                span: stmt.span.duplicate(),
                                token: None,
                            },
                        );
                    },
                    Some(k) => {
                        match &contract.constants[k].value {
                            ConstVal::Literal(l) => {
                                emit(&mut st.bytes, &mut st.offset, encode_push(l));
                            },
                            ConstVal::FreeStoragePointer => {
                                return Err(
                                    CodegenError {
                                        kind: CodegenErrorKind::StoragePointersNotDerived,
                                        span: stmt.span.duplicate(),
                                        token: None,
                                    },
                                );
                            },
                        }
                    },
                }
            },
            StatementType::ArgRef(name) => {
                let n = scope.len();
                let k = mis.len();
                assert(scope@.subrange(0, n as int) == scope@);
                assert(mis@.subrange(0, k as int) == mis@);
                let res = resolve_within(
                    name,
                    def,
                    contract,
                    scope,
                    n,
                    mis,
                    k,
                    None,
                    &mut st.bytes,
                    &mut st.offset,
                    &mut st.jump_table,
                );
                assert(log_view(st.jump_table.history()).len() == st.jump_table.history().len());
                assert(log_view(before_table.history()).len() == before_table.history().len());
                match res {
                    Err(e) => {
                        return Err(e);
                    },
                    Ok(Resolved::ArgumentMissing) => {
                        let at = stmt.span.duplicate();
                        st.missing_args.push(at);
                        assert(st@.missing_args =~= before.missing_args.push(stmt.span@));
                    },
                    Ok(Resolved::Emitted) => {
                        note_jump(st, mis, h, site);
                    },
                }
            },
        }
        assert(expand_from(*contract, *def, sc, ms, i as int, before) == expand_from(*contract, *def, sc, ms, i + 1, st@));
        i = i + 1;
    }
    Ok(())
}

/// The bytes of the fragments, one after another.
pub open spec fn concat(frags: Seq<(usize, Seq<u8>)>) -> Seq<u8>
    decreases frags.len(),
{
    if frags.len() == 0 {
        Seq::empty()
    } else {
        concat(frags.drop_last()) + frags.last().1
    }
}

/// The names of the labels defined in frame `f`; the others match nothing.
pub open spec fn frame_keys(labels: Seq<(usize, Seq<char>, usize)>, f: usize) -> Seq<Option<Seq<char>>> {
    labels.map_values(
        |l: (usize, Seq<char>, usize)|
            if l.0 == f {
                Some(l.1)
            } else {
                None
            },
    )
}

/// The offset of the label `name` as seen through `chain`: the first frame
/// of the chain that defines it decides, and within a frame the first
/// definition.
pub open spec fn find_label(
    labels: Seq<(usize, Seq<char>, usize)>,
    chain: Seq<usize>,
    name: Seq<char>,
) -> Option<usize>
    decreases chain.len(),
{
    if chain.len() == 0 {
        None
    } else {
        match first_match(frame_keys(labels, chain[0]), name) {
            Some(k) => Some(labels[k].2),
            None => find_label(labels, chain.drop_first(), name),
        }
    }
}

/// Why linking fails.
pub enum LinkFailure {
    /// A jump's label is not visible, or there is no placeholder at its
    /// site; with the jump's span.
    Unmatched(Seq<Span>),
    /// The label lies beyond what two bytes can address; with the label and
    /// the jump's span.
    OutOfRange(Seq<char>, Seq<Span>),
}

/// `art` with the two bytes at `p` set to `t`, big-endian.
pub open spec fn write_u16(art: Seq<u8>, p: int, t: usize) -> Seq<u8> {
    art.update(p, (t / 256) as u8).update(p + 1, (t % 256) as u8)
}

/// Patches the placeholder at `site` for the jumps of `jumps` from the
/// `k`-th on.
pub open spec fn patch_site(
    art: Seq<u8>,
    site: usize,
    jumps: Seq<JumpModel>,
    chain: Seq<usize>,
    labels: Seq<(usize, Seq<char>, usize)>,
    k: int,
) -> Result<Seq<u8>, LinkFailure>
    decreases jumps.len() - k,
{
    if k < 0 || k >= jumps.len() {
        Ok(art)
    } else {
        match find_label(labels, chain, jumps[k].label) {
            None => Err(LinkFailure::Unmatched(jumps[k].span)),
            Some(t) => if site + 3 > art.len() {
                Err(LinkFailure::Unmatched(jumps[k].span))
            } else if t > 0xffff {
                Err(LinkFailure::OutOfRange(jumps[k].label, jumps[k].span))
            } else {
                patch_site(write_u16(art, site + 1, t), site, jumps, chain, labels, k + 1)
            },
        }
    }
}

/// The frames the `e`-th insertion can see.
pub open spec fn chain_at(visible: Seq<Seq<usize>>, e: int) -> Seq<usize> {
    if 0 <= e < visible.len() {
        visible[e]
    } else {
        Seq::empty()
    }
}

/// Patches, for each insertion of `log` from the `e`-th on and in the order
/// they were made, the placeholder at its site in `sites`.
pub open spec fn link_from(
    art: Seq<u8>,
    log: Seq<(usize, Seq<JumpModel>)>,
    visible: Seq<Seq<usize>>,
    sites: Seq<usize>,
    labels: Seq<(usize, Seq<char>, usize)>,
    e: int,
) -> Result<Seq<u8>, LinkFailure>
    decreases log.len() - e,
{
    if e < 0 || e >= log.len() {
        Ok(art)
    } else if e >= sites.len() {
        Err(LinkFailure::Unmatched(Seq::empty()))
    } else {
        match patch_site(art, sites[e], log[e].1, chain_at(visible, e), labels, 0) {
            Ok(a) => link_from(a, log, visible, sites, labels, e + 1),
            Err(f) => Err(f),
        }
    }
}

/// The artifact an expansion links to.
pub open spec fn link_model(m: ExpansionModel) -> Result<Seq<u8>, LinkFailure> {
    link_from(concat(m.frags), m.jumps, m.visible, m.sites, m.labels, 0)
}

/// The result of linking is what `f` describes.
pub open spec fn link_outcome(f: Result<Seq<u8>, LinkFailure>, r: Result<Vec<u8>, CodegenError>) -> bool {
    match f {
        Ok(a) => r matches Ok(v) && v@ == a,
        Err(LinkFailure::Unmatched(sp)) => r matches Err(e) && e.kind == CodegenErrorKind::UnmatchedJumpLabel
            && e.span@ == sp && e.token is None,
        Err(LinkFailure::OutOfRange(l, sp)) => r matches Err(e) && e.kind matches CodegenErrorKind::UsizeConversion(s)
            && s@ == l && e.span@ == sp && e.token is None,
    }
}

/// Offset of the first label named `name` in frame `f`.
fn find_in_frame(labels: &Vec<LabelSite>, f: usize, name: &String) -> (r: Option<usize>)
    ensures
        r is None ==> first_match(frame_keys(labels_view(labels@), f), name@) is None,
        r matches Some(i) ==> first_match(frame_keys(labels_view(labels@), f), name@) == Some(i as int),
{
    let ghost keys = frame_keys(labels_view(labels@), f);
    let mut i: usize = 0;
    while i < labels.len()
        invariant
            i <= labels@.len(),
            keys == frame_keys(labels_view(labels@), f),
            forall|j: int| 0 <= j < i ==> keys[j] != Some(name@),
        decreases labels@.len() - i,
    {
        if labels[i].frame == f && labels[i].name == *name {
            proof {
                let k = choose|k: int| is_first_match(keys, name@, k);
                assert(is_first_match(keys, name@, i as int));
                if k < i {
                    assert(keys[k] != Some(name@));
                }
                if i < k {
                    assert(keys[i as int] != Some(name@));
                }
            }
            return Some(i);
        }
        i = i + 1;
    }
    proof {
        if exists|k: int| is_first_match(keys, name@, k) {
            let k = choose|k: int| is_first_match(keys, name@, k);
            assert(keys[k] != Some(name@));
        }
    }
    None
}

/// The offset of `name` as seen through `chain`; see [`find_label`].
fn lookup_label(labels: &Vec<LabelSite>, chain: &Vec<usize>, name: &String) -> (r: Option<usize>)
    ensures
        r == find_label(labels_view(labels@), chain@, name@),
{
    let mut c: usize = 0;
    assert(chain@.subrange(0, chain@.len() as int) == chain@);
    while c < chain.len()
        invariant
            c <= chain@.len(),
            find_label(labels_view(labels@), chain@, name@) == find_label(
                labels_view(labels@),
                chain@.subrange(c as int, chain@.len() as int),
                name@,
            ),
        decreases chain@.len() - c,
    {
        let ghost rest = chain@.subrange(c as int, chain@.len() as int);
        assert(rest.drop_first() =~= chain@.subrange(c + 1, chain@.len() as int));
        assert(rest[0] == chain@[c as int]);
        match find_in_frame(labels, chain[c], name) {
            Some(k) => {
                return Some(labels[k].offset);
            },
            None => {},
        }
        c = c + 1;
    }
    None
}

/// Patches the placeholder at `site` for each of `jumps`; see [`patch_site`].
fn patch_jumps(
    art: &mut Vec<u8>,
    site: usize,
    jumps: &Vec<Jump>,
    chain: &Vec<usize>,
    labels: &Vec<LabelSite>,
) -> (r: Result<(), CodegenError>)
    ensures
        match patch_site(old(art)@, site, jumps_view(jumps@), chain@, labels_view(labels@), 0) {
            Ok(a) => r is Ok && final(art)@ == a,
            Err(f) => link_outcome(Err(f), Err(r->Err_0)) && r is Err,
        },
{
    let ghost js = jumps_view(jumps@);
    let ghost lv = labels_view(labels@);
    let ghost a0 = art@;
    let mut k: usize = 0;
    while k < jumps.len()
        invariant
            k <= jumps@.len(),
            js == jumps_view(jumps@),
            lv == labels_view(labels@),
            a0 == old(art)@,
            patch_site(a0, site, js, chain@, lv, 0) == patch_site(art@, site, js, chain@, lv, k as int),
        decreases jumps@.len() - k,
    {
        let jump = &jumps[k];
        assert(js[k as int].label == jump.label@);
        assert(js[k as int].span == jump.span@);
        match lookup_label(labels, chain, &jump.label) {
            None => {
                return Err(
                    CodegenError {
                        kind: CodegenErrorKind::UnmatchedJumpLabel,
                        span: jump.span.duplicate(),
                        token: None,
                    },
                );
            },
            Some(t) => {
                if site > art.len() || art.len() - site < 3 {
                    return Err(
                        CodegenError {
                            kind: CodegenErrorKind::UnmatchedJumpLabel,
                            span: jump.span.duplicate(),
                            token: None,
                        },
                    );
                }
                if t > 0xffff {
                    return Err(
                        CodegenError {
                            kind: CodegenErrorKind::UsizeConversion(jump.label.clone()),
                            span: jump.span.duplicate(),
                            token: None,
                        },
                    );
                }
                art[site + 1] = (t / 256) as u8;
                art[site + 2] = (t % 256) as u8;
                k = k + 1;
            },
        }
    }
    Ok(())
}

/// Lays the fragments of an expansion end to end and patches every jump
/// placeholder with the offset of its label; see [`link_model`].
pub fn link(exp: &Expansion) -> (r: Result<Vec<u8>, CodegenError>)
    ensures
        link_outcome(link_model(exp@), r),
{
    let ghost fv = frags_view(exp.bytes@);
    let mut art: Vec<u8> = Vec::new();
    let mut i: usize = 0;
    while i < exp.bytes.len()
        invariant
            i <= exp.bytes@.len(),
            fv == frags_view(exp.bytes@),
            art@ == concat(fv.subrange(0, i as int)),
        decreases exp.bytes@.len() - i,
    {
        let frag = &exp.bytes[i].1;
        let mut j: usize = 0;
        let ghost start = art@;
        while j < frag.len()
            invariant
                j <= frag@.len(),
                art@ == start + frag@.subrange(0, j as int),
            decreases frag@.len() - j,
        {
            art.push(frag[j]);
            j = j + 1;
            assert(art@ =~= start + frag@.subrange(0, j as int));
        }
        assert(fv.subrange(0, i + 1).drop_last() =~= fv.subrange(0, i as int));
        assert(frag@.subrange(0, j as int) =~= frag@);
        i = i + 1;
    }
    assert(fv.subrange(0, i as int) =~= fv);
    let log = exp.jump_table.entries();
    let ghost lg = log_view(log@);
    let ghost vis = visible_view(exp.visible@);
    let ghost lab = labels_view(exp.labels@);
    let mut e: usize = 0;
    while e < log.len()
        invariant
            e <= log@.len(),
            lg == log_view(log@),
            lg == exp@.jumps,
            vis == exp@.visible,
            lab == exp@.labels,
            link_model(exp@) == link_from(art@, lg, vis, exp@.sites, lab, e as int),
        decreases log@.len() - e,
    {
        if e >= exp.sites.len() {
            let none = AstSpan(Vec::new());
            assert(none@ =~= Seq::<Span>::empty());
            return Err(CodegenError { kind: CodegenErrorKind::UnmatchedJumpLabel, span: none, token: None });
        }
        let empty: Vec<usize> = Vec::new();
        let chain = if e < exp.visible.len() {
            &exp.visible[e]
        } else {
            &empty
        };
        assert(chain@ == chain_at(vis, e as int));
        let res = patch_jumps(&mut art, exp.sites[e], &log[e].1, chain, &exp.labels);
        match res {
            Err(err) => {
                return Err(err);
            },
            Ok(()) => {},
        }
        e = e + 1;
    }
    Ok(art)
}

/// The expansion of the macro named `entry`: `None` when no macro has that name.
pub open spec fn expansion_model(c: Contract, entry: Seq<char>) -> Option<Result<ExpansionModel, Failure>> {
    match first_match(macro_keys(c.macros@), entry) {
        None => None,
        Some(m) => Some(
            expand_from(c, c.macros@[m], seq![c.macros@[m]], Seq::empty(), 0, initial_model()),
        ),
    }
}

/// Expands the body of the macro named `entry`, which runs as frame 0 with
/// no invocation around it.
pub fn expand(contract: &Contract, entry: &str) -> (r: Result<Expansion, CodegenError>)
    ensures
        match expansion_model(*contract, entry@) {
            None => r matches Err(e) && e.kind matches CodegenErrorKind::MissingMacroDefinition(s) && s@ == entry@
                && e.span@ == Seq::<Span>::empty() && e.token is None,
            Some(Err((k, sp))) => r matches Err(e) && e.kind == k && e.span@ == sp && e.token is None,
            Some(Ok(m)) => r matches Ok(x) && x@ == m && x.visible@.len() == x.jump_table.history().len()
                && x.sites@.len() == x.jump_table.history().len(),
        },
{
    let name = entry.to_owned();
    match find_macro(&contract.macros, &name) {
        None => {
            let none = AstSpan(Vec::new());
            assert(none@ =~= Seq::<Span>::empty());
            Err(CodegenError { kind: CodegenErrorKind::MissingMacroDefinition(name), span: none, token: None })
        },
        Some(m) => {
            let def = &contract.macros[m];
            let mut st = Expansion::new();
            let mut scope: Vec<&MacroDefinition> = Vec::new();
            scope.push(def);
            let mut mis: Vec<(usize, &MacroInvocation)> = Vec::new();
            assert(defs_of(scope@) =~= seq![*def]);
            assert(frames_of(mis@) =~= Seq::empty());
            match expand_within(def, contract, &mut scope, &mut mis, &mut st) {
                Err(e) => Err(e),
                Ok(()) => Ok(st),
            }
        },
    }
}

/// What compiling the macro named `entry` of `c` may return.
pub open spec fn generated(c: Contract, entry: Seq<char>, r: Result<Vec<u8>, CodegenError>) -> bool {
    match expansion_model(c, entry) {
        None => r matches Err(e) && e.kind matches CodegenErrorKind::MissingMacroDefinition(s) && s@ == entry
            && e.span@ == Seq::<Span>::empty() && e.token is None,
        Some(Err((k, sp))) => r matches Err(e) && e.kind == k && e.span@ == sp && e.token is None,
        Some(Ok(m)) => link_outcome(link_model(m), r),
    }
}

/// Compiles the macro named `entry` to bytecode: expands it, then links.
pub fn generate(contract: &Contract, entry: &str) -> (r: Result<Vec<u8>, CodegenError>)
    ensures
        generated(*contract, entry@, r),
{
    match expand(contract, entry) {
        Err(e) => Err(e),
        Ok(st) => link(&st),
    }
}

/// The fragments tile the bytes from `start` to `end`: the first begins at
/// `start`, each ends where the next begins, and the last ends at `end`.
pub open spec fn contiguous(frags: Seq<(usize, Seq<u8>)>, start: int, end: int) -> bool {
    &&& frags.len() == 0 ==> start == end
    &&& frags.len() > 0 ==> frags[0].0 == start && frags.last().0 + frags.last().1.len() == end
    &&& forall|i: int|
        #![trigger frags[i]]
        0 <= i < frags.len() - 1 ==> frags[i].0 + frags[i].1.len() == frags[i + 1].0
}

/// An expansion state whose fragments tile the bytes from 0 to its offset,
/// whose labels each sit on a `JUMPDEST`, and whose jump insertions each
/// hold one jump and point, in order, at a placeholder `PUSH2 00 00`.
pub open spec fn laid_out(st: ExpansionModel) -> bool {
    &&& contiguous(st.frags, 0, st.offset as int)
    &&& forall|k: int|
        #![trigger st.labels[k]]
        0 <= k < st.labels.len() ==> st.labels[k].2 < st.offset && concat(st.frags)[st.labels[k].2 as int]
            == JUMPDEST
    &&& st.sites.len() == st.jumps.len()
    &&& forall|e: int| #![trigger st.sites[e]] 0 <= e < st.sites.len() ==> placeholder_at(concat(st.frags), st.sites[e] as int)
        && st.sites[e] + 3 <= st.offset && st.jumps[e].1.len() == 1
    &&& sites_ordered(st.sites)
}

/// `art` holds a `PUSH2` with a zero payload at `s`.
pub open spec fn placeholder_at(art: Seq<u8>, s: int) -> bool {
    &&& 0 <= s && s + 3 <= art.len()
    &&& art[s] == PUSH2
    &&& art[s + 1] == 0
    &&& art[s + 2] == 0
}

/// Each site lies at least three bytes after the one before.
pub open spec fn sites_ordered(sites: Seq<usize>) -> bool {
    forall|e: int, f: int| #![trigger sites[e], sites[f]] 0 <= e < f < sites.len() ==> sites[e] + 3 <= sites[f]
}

proof fn lemma_concat_len(frags: Seq<(usize, Seq<u8>)>, start: int, end: int)
    requires
        contiguous(frags, start, end),
    ensures
        concat(frags).len() == end - start,
    decreases frags.len(),
{
    if frags.len() > 0 {
        let f = frags.drop_last();
        if f.len() > 0 {
            assert(f.last() == frags[frags.len() - 2]);
            assert(frags[frags.len() - 2].0 + frags[frags.len() - 2].1.len() == frags[frags.len() - 1].0);
        }
        assert forall|i: int| #![trigger f[i]] 0 <= i < f.len() - 1 implies f[i].0 + f[i].1.len() == f[i + 1].0 by {
            assert(f[i] == frags[i]);
            assert(f[i + 1] == frags[i + 1]);
        }
        lemma_concat_len(f, start, frags.last().0 as int);
    }
}

proof fn lemma_emit_laid_out(st: ExpansionModel, b: Seq<u8>, st2: ExpansionModel)
    requires
        laid_out(st),
        st.offset + b.len() <= usize::MAX,
        st2.frags == st.frags.push((st.offset, b)),
        st2.offset == st.offset + b.len(),
        st2.labels == st.labels,
        st2.sites == st.sites,
        st2.jumps == st.jumps,
    ensures
        laid_out(st2),
        concat(st2.frags) == concat(st.frags) + b,
{
    lemma_concat_len(st.frags, 0, st.offset as int);
    assert(st2.frags.drop_last() == st.frags);
    let f = st2.frags;
    assert forall|i: int| #![trigger f[i]] 0 <= i < f.len() - 1 implies f[i].0 + f[i].1.len() == f[i + 1].0 by {
        if i < f.len() - 2 {
            assert(f[i] == st.frags[i]);
            assert(f[i + 1] == st.frags[i + 1]);
        }
    }
    assert forall|k: int| #![trigger st2.labels[k]] 0 <= k < st2.labels.len() implies st2.labels[k].2 < st2.offset
        && concat(st2.frags)[st2.labels[k].2 as int] == JUMPDEST by {
        assert(st.labels[k] == st2.labels[k]);
    }
    assert forall|e: int| #![trigger st2.sites[e]] 0 <= e < st2.sites.len() implies placeholder_at(concat(st2.frags), st2.sites[e] as int)
        && st2.sites[e] + 3 <= st2.offset && st2.jumps[e].1.len() == 1 by {
        assert(st.sites[e] == st2.sites[e]);
    }
}

/// A placeholder emitted with its jump keeps the state laid out.
proof fn lemma_jump_laid_out(st: ExpansionModel, st2: ExpansionModel, key: usize, jm: JumpModel, chain: Seq<usize>)
    requires
        laid_out(st),
        st.offset + 3 <= usize::MAX,
        st2.frags == st.frags.push((st.offset, placeholder_encoding())),
        st2.offset == st.offset + 3,
        st2.labels == st.labels,
        st2.sites == st.sites.push(st.offset),
        st2.jumps == st.jumps.push((key, seq![jm])),
    ensures
        laid_out(st2),
{
    let mid = ExpansionModel { frags: st2.frags, offset: st2.offset, ..st };
    lemma_emit_laid_out(st, placeholder_encoding(), mid);
    lemma_concat_len(st.frags, 0, st.offset as int);
    let art = concat(st2.frags);
    assert(art == concat(st.frags) + placeholder_encoding());
    assert forall|e: int| #![trigger st2.sites[e]] 0 <= e < st2.sites.len() implies placeholder_at(art, st2.sites[e] as int)
        && st2.sites[e] + 3 <= st2.offset && st2.jumps[e].1.len() == 1 by {
        if e < st.sites.len() {
            assert(st2.sites[e] == st.sites[e]);
            assert(mid.sites[e] == st.sites[e]);
            assert(st2.jumps[e] == st.jumps[e]);
        } else {
            assert(st2.jumps[e].1 == seq![jm]);
        }
    }
    assert forall|e: int, f: int| #![trigger st2.sites[e], st2.sites[f]] 0 <= e < f < st2.sites.len() implies st2.sites[e] + 3
        <= st2.sites[f] by {
        assert(st2.sites[e] == st.sites[e]);
        if f < st.sites.len() {
            assert(st2.sites[f] == st.sites[f]);
        }
    }
}

proof fn lemma_apply_laid_out(
    st: ExpansionModel,
    res: Resolution,
    mis: Seq<(usize, MacroInvocation)>,
    at: Seq<Span>,
)
    requires
        laid_out(st),
        st.offset <= usize::MAX - 33,
        res matches Resolution::Emit(b) ==> b.len() <= 33,
    ensures
        apply(st, res, mis, at) matches Ok(st2) ==> laid_out(st2),
{
    match res {
        Resolution::Emit(b) => {
            lemma_emit_laid_out(st, b, apply(st, res, mis, at)->Ok_0);
        },
        Resolution::Jump { key, label, span } => {
            lemma_jump_laid_out(
                st,
                apply(st, res, mis, at)->Ok_0,
                key,
                JumpModel { label, bytecode_index: 0, span },
                frame_chain(mis),
            );
        },
        Resolution::Skip => {
            let st2 = apply(st, res, mis, at)->Ok_0;
            assert forall|e: int| #![trigger st2.sites[e]] 0 <= e < st2.sites.len() implies placeholder_at(concat(st2.frags), st2.sites[e] as int)
                && st2.sites[e] + 3 <= st2.offset && st2.jumps[e].1.len() == 1 by {
                assert(st.sites[e] == st2.sites[e]);
            }
            assert forall|k: int| #![trigger st2.labels[k]] 0 <= k < st2.labels.len() implies st2.labels[k].2 < st2.offset
                && concat(st2.frags)[st2.labels[k].2 as int] == JUMPDEST by {
                assert(st.labels[k] == st2.labels[k]);
            }
        },
        _ => {},
    }
}

proof fn lemma_expand_laid_out(
    c: Contract,
    def: MacroDefinition,
    scope: Seq<MacroDefinition>,
    mis: Seq<(usize, MacroInvocation)>,
    i: int,
    st: ExpansionModel,
)
    requires
        laid_out(st),
    ensures
        expand_from(c, def, scope, mis, i, st) matches Ok(m) ==> laid_out(m),
    decreases c.macros@.len() + 1 - scope.len(), def.statements@.len() - i,
{
    if i < 0 || i >= def.statements@.len() || scope.len() > c.macros@.len() + 1 {
    } else if st.offset > usize::MAX - 33 {
    } else {
        let next = match def.statements@[i].ty {
            StatementType::LabelDef(name) => {
                let st2 = ExpansionModel {
                    labels: st.labels.push((current_frame(mis), name@, st.offset)),
                    frags: st.frags.push((st.offset, seq![JUMPDEST])),
                    offset: (st.offset + 1) as usize,
                    ..st
                };
                let mid = ExpansionModel { frags: st2.frags, offset: st2.offset, ..st };
                lemma_emit_laid_out(st, seq![JUMPDEST], mid);
                lemma_concat_len(st.frags, 0, st.offset as int);
                assert forall|k: int| #![trigger st2.labels[k]] 0 <= k < st2.labels.len() implies st2.labels[k].2 < st2.offset
                    && concat(st2.frags)[st2.labels[k].2 as int] == JUMPDEST by {
                    if k < st.labels.len() {
                        assert(st2.labels[k] == st.labels[k]);
                        assert(mid.labels[k] == st.labels[k]);
                    } else {
                        assert(concat(st2.frags) == concat(st.frags) + seq![JUMPDEST]);
                    }
                }
                assert forall|e: int| #![trigger st2.sites[e]] 0 <= e < st2.sites.len() implies placeholder_at(concat(st2.frags), st2.sites[e] as int)
                    && st2.sites[e] + 3 <= st2.offset && st2.jumps[e].1.len() == 1 by {
                    assert(mid.sites[e] == st2.sites[e]);
                }
                Ok(st2)
            },
            StatementType::Invoke(mi) => match first_match(macro_keys(c.macros@), mi.macro_name@) {
                None => Err((CodegenErrorKind::InvalidMacroInvocation(mi.macro_name), mi.span@)),
                Some(m) => if scope.len() > c.macros@.len() {
                    Err((CodegenErrorKind::InvalidMacroStatement, mi.span@))
                } else if st.next_index == usize::MAX {
                    Err((CodegenErrorKind::UsizeConversion(mi.macro_name), mi.span@))
                } else {
                    let target = c.macros@[m];
                    let inner = ExpansionModel { next_index: (st.next_index + 1) as usize, ..st };
                    assert forall|e: int| #![trigger inner.sites[e]] 0 <= e < inner.sites.len() implies placeholder_at(concat(inner.frags), inner.sites[e] as int)
                        && inner.sites[e] + 3 <= inner.offset && inner.jumps[e].1.len() == 1 by {
                        assert(st.sites[e] == inner.sites[e]);
                    }
                    assert forall|k: int| #![trigger inner.labels[k]] 0 <= k < inner.labels.len() implies inner.labels[k].2 < inner.offset
                        && concat(inner.frags)[inner.labels[k].2 as int] == JUMPDEST by {
                        assert(st.labels[k] == inner.labels[k]);
                    }
                    assert(inner.frags == st.frags && inner.offset == st.offset && inner.sites == st.sites);
                    assert(sites_ordered(inner.sites));
                    assert(contiguous(inner.frags, 0, inner.offset as int));
                    assert(laid_out(inner));
                    lemma_expand_laid_out(c, target, scope.push(target), mis.push((st.next_index, mi)), 0, inner);
                    expand_from(c, target, scope.push(target), mis.push((st.next_index, mi)), 0, inner)
                },
            },
            _ => {
                let res = statement_resolution(def.statements@[i].ty, def.statements@[i].span@, def, c, scope, mis, st.offset);
                match def.statements@[i].ty {
                    StatementType::LiteralPush(l) => lemma_push_encoding_len(l@),
                    StatementType::ConstRef(name) => match first_match(constant_keys(c.constants@), name@) {
                        Some(k) => match c.constants@[k].value {
                            ConstVal::Literal(l) => lemma_push_encoding_len(l@),
                            _ => {},
                        },
                        None => {},
                    },
                    StatementType::ArgRef(name) => lemma_resolution_size(name@, def, c, scope, mis, st.offset),
                    _ => {},
                }
                lemma_apply_laid_out(st, res, mis, def.statements@[i].span@);
                apply(st, res, mis, def.statements@[i].span@)
            },
        };
        match next {
            Ok(st2) => lemma_expand_laid_out(c, def, scope, mis, i + 1, st2),
            Err(k) => {},
        }
    }
}

/// Every fragment of an expansion ends where the next begins; the first
/// begins at 0 and the last ends at the final offset, which is the length of
/// the artifact the fragments make. Every label sits on a `JUMPDEST` byte of
/// that artifact.
pub proof fn lemma_expansion_laid_out(c: Contract, entry: Seq<char>)
    ensures
        expansion_model(c, entry) matches Some(Ok(m)) ==> {
            &&& laid_out(m)
            &&& contiguous(m.frags, 0, m.offset as int)
            &&& concat(m.frags).len() == m.offset
            &&& forall|k: int|
                #![trigger m.labels[k]]
                0 <= k < m.labels.len() ==> m.labels[k].2 < m.offset && concat(m.frags)[m.labels[k].2 as int]
                    == JUMPDEST
        },
{
    match first_match(macro_keys(c.macros@), entry) {
        None => {},
        Some(m) => {
            lemma_expand_laid_out(c, c.macros@[m], seq![c.macros@[m]], Seq::empty(), 0, initial_model());
            match expansion_model(c, entry) {
                Some(Ok(x)) => lemma_concat_len(x.frags, 0, x.offset as int),
                _ => {},
            }
        },
    }
}

/// Compiling the same contract from the same entry macro twice gives the
/// same bytes, or fails both times with the same error: the same kind, with
/// the same text, at the same spans, with the same token.
pub proof fn lemma_deterministic(
    c: Contract,
    entry: Seq<char>,
    r1: Result<Vec<u8>, CodegenError>,
    r2: Result<Vec<u8>, CodegenError>,
)
    requires
        generated(c, entry, r1),
        generated(c, entry, r2),
    ensures
        r1 is Ok <==> r2 is Ok,
        r1 is Ok ==> r1->Ok_0@ == r2->Ok_0@,
        r1 is Err ==> {
            &&& r1->Err_0.kind@ == r2->Err_0.kind@
            &&& r1->Err_0.span@ == r2->Err_0.span@
            &&& r1->Err_0.token == r2->Err_0.token
        },
{
}

proof fn lemma_find_label_is_label(labels: Seq<(usize, Seq<char>, usize)>, chain: Seq<usize>, name: Seq<char>)
    ensures
        find_label(labels, chain, name) matches Some(t) ==> exists|k: int|
            0 <= k < labels.len() && #[trigger] labels[k].1 == name && labels[k].2 == t,
    decreases chain.len(),
{
    if chain.len() > 0 {
        match first_match(frame_keys(labels, chain[0]), name) {
            Some(k) => {
                let keys = frame_keys(labels, chain[0]);
                assert(is_first_match(keys, name, k));
                assert(labels[k].1 == name);
            },
            None => lemma_find_label_is_label(labels, chain.drop_first(), name),
        }
    }
}

/// Linking one placeholder site: when it succeeds for a non-empty list of
/// jumps, the two bytes after `site` hold, big-endian, the offset of a label
/// named by the last jump and visible through `chain`; every other byte is
/// left as it was.
pub proof fn lemma_patch_site_targets_label(
    art: Seq<u8>,
    site: usize,
    jumps: Seq<JumpModel>,
    chain: Seq<usize>,
    labels: Seq<(usize, Seq<char>, usize)>,
)
    requires
        jumps.len() > 0,
        patch_site(art, site, jumps, chain, labels, 0) is Ok,
    ensures
        ({
            let a = patch_site(art, site, jumps, chain, labels, 0)->Ok_0;
            &&& a.len() == art.len()
            &&& site + 3 <= a.len()
            &&& find_label(labels, chain, jumps.last().label) matches Some(t) && a[site + 1] * 256 + a[site + 2] == t
            &&& exists|k: int|
                0 <= k < labels.len() && #[trigger] labels[k].1 == jumps.last().label && labels[k].2 == a[site + 1] * 256 + a[site + 2]
            &&& forall|p: int| 0 <= p < a.len() && p != site + 1 && p != site + 2 ==> a[p] == art[p]
        }),
{
    lemma_patch_from(art, site, jumps, chain, labels, 0);
    lemma_find_label_is_label(labels, chain, jumps.last().label);
}

proof fn lemma_patch_from(
    art: Seq<u8>,
    site: usize,
    jumps: Seq<JumpModel>,
    chain: Seq<usize>,
    labels: Seq<(usize, Seq<char>, usize)>,
    k: int,
)
    requires
        0 <= k < jumps.len(),
        patch_site(art, site, jumps, chain, labels, k) is Ok,
    ensures
        ({
            let a = patch_site(art, site, jumps, chain, labels, k)->Ok_0;
            &&& a.len() == art.len()
            &&& site + 3 <= a.len()
            &&& find_label(labels, chain, jumps.last().label) matches Some(t) && a[site + 1] * 256 + a[site + 2] == t
            &&& forall|p: int| 0 <= p < a.len() && p != site + 1 && p != site + 2 ==> a[p] == art[p]
        }),
    decreases jumps.len() - k,
{
    let t = find_label(labels, chain, jumps[k].label)->Some_0;
    let w = write_u16(art, site + 1, t);
    assert(w[site + 1] == (t / 256) as u8);
    assert(w[site + 2] == (t % 256) as u8);
    assert(w[site + 1] * 256 + w[site + 2] == t) by (nonlinear_arith)
        requires
            t <= 0xffff,
            w[site + 1] == (t / 256) as u8,
            w[site + 2] == (t % 256) as u8,
    ;
    if k + 1 < jumps.len() {
        lemma_patch_from(w, site, jumps, chain, labels, k + 1);
    } else {
        assert(patch_site(w, site, jumps, chain, labels, k + 1) == Ok::<Seq<u8>, LinkFailure>(w));
    }
}


/// The payload after `site` holds, big-endian, the offset of a label named
/// by the last of `jumps`.
pub open spec fn site_linked(
    a: Seq<u8>,
    labels: Seq<(usize, Seq<char>, usize)>,
    site: usize,
    jumps: Seq<JumpModel>,
) -> bool {
    &&& site + 3 <= a.len()
    &&& exists|k: int|
        0 <= k < labels.len() && #[trigger] labels[k].1 == jumps.last().label && labels[k].2 == a[site + 1]
            * 256 + a[site + 2]
}

/// Byte `p` is a payload byte of a site from the `e`-th on.
pub open spec fn in_payload(sites: Seq<usize>, e: int, p: int) -> bool {
    exists|j: int| e <= j < sites.len() && (p == #[trigger] sites[j] + 1 || p == sites[j] + 2)
}

proof fn lemma_link_from(
    art: Seq<u8>,
    log: Seq<(usize, Seq<JumpModel>)>,
    visible: Seq<Seq<usize>>,
    sites: Seq<usize>,
    labels: Seq<(usize, Seq<char>, usize)>,
    e: int,
)
    requires
        0 <= e <= log.len(),
        sites.len() == log.len(),
        sites_ordered(sites),
        forall|j: int| 0 <= j < log.len() ==> (#[trigger] log[j]).1.len() > 0,
        link_from(art, log, visible, sites, labels, e) is Ok,
    ensures
        ({
            let a = link_from(art, log, visible, sites, labels, e)->Ok_0;
            &&& a.len() == art.len()
            &&& forall|j: int| e <= j < log.len() ==> #[trigger] site_linked(a, labels, sites[j], log[j].1)
            &&& forall|p: int| 0 <= p < a.len() && !in_payload(sites, e, p) ==> a[p] == art[p]
        }),
    decreases log.len() - e,
{
    if e < log.len() {
        let key = sites[e];
        let a1 = patch_site(art, key, log[e].1, chain_at(visible, e), labels, 0)->Ok_0;
        assert(log[e].1.len() > 0);
        lemma_patch_site_targets_label(art, key, log[e].1, chain_at(visible, e), labels);
        lemma_link_from(a1, log, visible, sites, labels, e + 1);
        let a = link_from(art, log, visible, sites, labels, e)->Ok_0;
        assert(a == link_from(a1, log, visible, sites, labels, e + 1)->Ok_0);
        // Later sites lie three bytes on or more, so they miss this payload.
        assert forall|q: int| (q == key + 1 || q == key + 2) implies !#[trigger] in_payload(sites, e + 1, q) by {
            if in_payload(sites, e + 1, q) {
                let j = choose|j: int| e + 1 <= j < sites.len() && (q == #[trigger] sites[j] + 1 || q == sites[j] + 2);
                assert(sites[e] + 3 <= sites[j]);
            }
        }
        let k = choose|k: int|
            0 <= k < labels.len() && #[trigger] labels[k].1 == log[e].1.last().label && labels[k].2 == a1[key
                + 1] * 256 + a1[key + 2];
        assert(a[key + 1] == a1[key + 1]);
        assert(a[key + 2] == a1[key + 2]);
        assert(site_linked(a, labels, sites[e], log[e].1));
        assert forall|j: int| e <= j < log.len() implies #[trigger] site_linked(a, labels, sites[j], log[j].1) by {
            if j > e {
                assert(site_linked(a, labels, sites[j], log[j].1));
            }
        }
        assert forall|p: int| 0 <= p < a.len() && !in_payload(sites, e, p) implies a[p] == art[p] by {
            if in_payload(sites, e + 1, p) {
                let j = choose|j: int| e + 1 <= j < sites.len() && (p == #[trigger] sites[j] + 1 || p == sites[j] + 2);
                assert(e <= j);
            }
            if p == key + 1 || p == key + 2 {
                assert(in_payload(sites, e, p));
            }
        }
    }
}

/// Label round trip: when an expansion links, every placeholder it emitted
/// is still a `PUSH2` whose payload is, big-endian, the offset of a
/// `JUMPDEST` defining the label its jump names; all other bytes are as
/// expanded.
pub proof fn lemma_label_round_trip(c: Contract, entry: Seq<char>)
    ensures
        expansion_model(c, entry) matches Some(Ok(m)) ==> (link_model(m) is Ok ==> {
            let a = link_model(m)->Ok_0;
            let art = concat(m.frags);
            &&& a.len() == m.offset
            &&& m.sites.len() == m.jumps.len()
            &&& forall|j: int|
                #![trigger m.sites[j]]
                0 <= j < m.sites.len() ==> {
                    let site = m.sites[j] as int;
                    &&& art[site] == PUSH2
                    &&& a[site] == PUSH2
                    &&& exists|k: int|
                        0 <= k < m.labels.len() && #[trigger] m.labels[k].1 == m.jumps[j].1.last().label
                            && m.labels[k].2 == a[site + 1] * 256 + a[site + 2] && a[m.labels[k].2 as int]
                            == JUMPDEST
                }
            &&& forall|p: int| 0 <= p < a.len() && !in_payload(m.sites, 0, p) ==> a[p] == art[p]
        }),
{
    lemma_expansion_laid_out(c, entry);
    match expansion_model(c, entry) {
        Some(Ok(m)) => {
            if link_model(m) is Ok {
                let art = concat(m.frags);
                assert(laid_out(m));
                lemma_concat_len(m.frags, 0, m.offset as int);
                assert forall|j: int| 0 <= j < m.jumps.len() implies (#[trigger] m.jumps[j]).1.len() > 0 by {
                    assert(placeholder_at(art, m.sites[j] as int));
                }
                lemma_link_from(art, m.jumps, m.visible, m.sites, m.labels, 0);
                let a = link_model(m)->Ok_0;
                // Payload bytes are zero in the expanded bytes, so an opcode
                // byte is never one of them.
                assert forall|p: int| 0 <= p < art.len() && art[p] != 0 implies !in_payload(m.sites, 0, p) by {
                    if in_payload(m.sites, 0, p) {
                        let j = choose|j: int| 0 <= j < m.sites.len() && (p == #[trigger] m.sites[j] + 1 || p == m.sites[j] + 2);
                        assert(placeholder_at(art, m.sites[j] as int));
                    }
                }
                assert forall|j: int| #![trigger m.sites[j]] 0 <= j < m.sites.len() implies {
                    let site = m.sites[j] as int;
                    &&& art[site] == PUSH2
                    &&& a[site] == PUSH2
                    &&& exists|k: int|
                        0 <= k < m.labels.len() && #[trigger] m.labels[k].1 == m.jumps[j].1.last().label
                            && m.labels[k].2 == a[site + 1] * 256 + a[site + 2] && a[m.labels[k].2 as int]
                            == JUMPDEST
                } by {
                    let site = m.sites[j] as int;
                    assert(placeholder_at(art, site));
                    assert(site_linked(a, m.labels, m.sites[j], m.jumps[j].1));
                    let k = choose|k: int|
                        0 <= k < m.labels.len() && #[trigger] m.labels[k].1 == m.jumps[j].1.last().label
                            && m.labels[k].2 == a[site + 1] * 256 + a[site + 2];
                    assert(art[m.labels[k].2 as int] == JUMPDEST);
                }
            }
        },
        _ => {},
    }
}

} // verus!
