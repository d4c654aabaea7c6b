use crate::ast::{
    jumps_view, log_view, Argument, AstSpan, ConstVal, ConstantDefinition, Contract, Jump,
    JumpModel, JumpTable, MacroArg, MacroDefinition, MacroInvocation, Span,
};
use crate::error::{CodegenError, CodegenErrorKind};
use crate::opcodes::{
    encode_push, lemma_push_encoding_len, opcode_of, placeholder_encoding, push2_placeholder,
    push_encoding, resolve_opcode,
};
use vstd::prelude::*;

verus! {

/// What resolving a name in a macro body comes to.
pub enum Resolution {
    /// These bytes are emitted.
    Emit(Seq<u8>),
    /// A `PUSH2` placeholder is emitted and a jump to `label` is recorded at `key`.
    Jump { key: usize, label: Seq<char>, span: Seq<Span> },
    /// Nothing is emitted.
    Skip,
    /// Resolution fails with this error, located at these spans.
    Fail(CodegenErrorKind, Seq<Span>),
}

/// What a successful resolution did.
#[derive(Clone, Copy, Debug, PartialEq, Eq, Structural)]
pub enum Resolved {
    /// Bytes were emitted.
    Emitted,
    /// The name is a parameter that the invocation gave no argument for:
    /// nothing was emitted, which deserves a warning.
    ArgumentMissing,
}

/// Fragments with their payloads seen as byte sequences.
pub open spec fn frags_view(v: Seq<(usize, Vec<u8>)>) -> Seq<(usize, Seq<u8>)> {
    v.map_values(|f: (usize, Vec<u8>)| (f.0, f.1@))
}

/// `i` is the first position of `keys` that holds `name`.
pub open spec fn is_first_match(keys: Seq<Option<Seq<char>>>, name: Seq<char>, i: int) -> bool {
    &&& 0 <= i < keys.len()
    &&& keys[i] == Some(name)
    &&& forall|j: int| 0 <= j < i ==> keys[j] != Some(name)
}

/// The first position of `keys` that holds `name`, if any.
pub open spec fn first_match(keys: Seq<Option<Seq<char>>>, name: Seq<char>) -> Option<int> {
    if exists|i: int| is_first_match(keys, name, i) {
        Some(choose|i: int| is_first_match(keys, name, i))
    } else {
        None
    }
}

/// The names of a list of constants.
pub open spec fn constant_keys(cs: Seq<ConstantDefinition>) -> Seq<Option<Seq<char>>> {
    cs.map_values(|c: ConstantDefinition| Some(c.name@))
}

/// The names of a list of parameters; an unnamed parameter matches nothing.
pub open spec fn param_keys(ps: Seq<Argument>) -> Seq<Option<Seq<char>>> {
    ps.map_values(
        |p: Argument|
            match p.name {
                Some(s) => Some(s@),
                None => None,
            },
    )
}

/// Resolves `name` met in the body of `def`, where `scope` holds the
/// definitions being expanded and `mis` the invocations that led there,
/// innermost last, and `offset` is the current offset.
///
/// A constant comes first, then an opcode, then a parameter of `def`, which
/// takes the matching argument of the innermost invocation; an argument that
/// names a parameter of the caller is resolved again one level up. Anything
/// else is a reference to a label.
pub open spec fn resolve(
    name: Seq<char>,
    def: MacroDefinition,
    contract: Contract,
    scope: Seq<MacroDefinition>,
    mis: Seq<(usize, MacroInvocation)>,
    offset: usize,
) -> Resolution {
    resolve_walk(name, def, contract, scope, mis, offset, None)
}

/// How many more steps a walk may take that pop neither stack.
pub open spec fn stall_measure(scope: Seq<MacroDefinition>, stalled: Option<nat>) -> nat {
    match stalled {
        Some(left) => left,
        None => if scope.len() == 0 {
            0
        } else {
            scope.last().parameters@.len() + 1
        },
    }
}

/// [`resolve`], where `stalled` counts down the steps still allowed that pop
/// neither stack; `None` when the last step popped one.
///
/// Bubbling pops the scope stack, and the invocation stack when its top
/// invoked `def`. When the scope stack is shallower than the invocation
/// stack, or holds a single definition, its last definition is the outer one
/// and it is not popped. If then the invocation stack does not move either,
/// each step resolves a parameter of that same definition against the same
/// invocation: once there have been more such steps than it has
/// parameters, some parameter came back and the walk would go on forever,
/// so it fails.
pub open spec fn resolve_walk(
    name: Seq<char>,
    def: MacroDefinition,
    contract: Contract,
    scope: Seq<MacroDefinition>,
    mis: Seq<(usize, MacroInvocation)>,
    offset: usize,
    stalled: Option<nat>,
) -> Resolution
    decreases scope.len() + mis.len(), stall_measure(scope, stalled),
{
    match first_match(constant_keys(contract.constants@), name) {
        Some(i) => match contract.constants@[i].value {
            ConstVal::Literal(l) => Resolution::Emit(push_encoding(l@)),
            ConstVal::FreeStoragePointer => Resolution::Fail(
                CodegenErrorKind::StoragePointersNotDerived,
                Seq::empty(),
            ),
        },
        None => match opcode_of(name) {
            Some(b) => Resolution::Emit(seq![b]),
            None => if mis.len() == 0 {
                Resolution::Jump { key: 0, label: name, span: Seq::empty() }
            } else {
                let top = mis.last();
                match first_match(param_keys(def.parameters@), name) {
                    None => Resolution::Jump { key: top.0, label: name, span: top.1.span@ },
                    Some(p) => if p >= top.1.args@.len() {
                        Resolution::Skip
                    } else {
                        match top.1.args@[p] {
                            MacroArg::Literal(l) => Resolution::Emit(push_encoding(l@)),
                            MacroArg::Ident(id) => Resolution::Jump {
                                key: offset,
                                label: id@,
                                span: top.1.span@,
                            },
                            MacroArg::ArgCall(inner) => {
                                let popped = top.1.macro_name@ == def.name@;
                                let up = if popped {
                                    mis.drop_last()
                                } else {
                                    mis
                                };
                                if scope.len() == 0 {
                                    Resolution::Fail(
                                        CodegenErrorKind::MissingMacroInvocation(def.name),
                                        def.span@,
                                    )
                                } else if scope.len() >= 2 && scope.len() >= mis.len() {
                                    resolve_walk(
                                        inner@,
                                        scope[scope.len() - 2],
                                        contract,
                                        scope.drop_last(),
                                        up,
                                        offset,
                                        None,
                                    )
                                } else if popped {
                                    resolve_walk(inner@, scope.last(), contract, scope, up, offset, None)
                                } else {
                                    match stalled {
                                        None => resolve_walk(
                                            inner@,
                                            scope.last(),
                                            contract,
                                            scope,
                                            mis,
                                            offset,
                                            Some(scope.last().parameters@.len()),
                                        ),
                                        Some(left) => if left > 0 {
                                            resolve_walk(
                                                inner@,
                                                scope.last(),
                                                contract,
                                                scope,
                                                mis,
                                                offset,
                                                Some((left - 1) as nat),
                                            )
                                        } else {
                                            Resolution::Fail(
                                                CodegenErrorKind::MissingMacroInvocation(
                                                    def.name,
                                                ),
                                                def.span@,
                                            )
                                        },
                                    }
                                }
                            },
                        }
                    },
                }
            },
        },
    }
}

/// The definitions a stack of references points to.
pub open spec fn defs_of(s: Seq<&MacroDefinition>) -> Seq<MacroDefinition> {
    s.map_values(|d: &MacroDefinition| *d)
}

/// The invocation frames a stack of references points to.
pub open spec fn frames_of(s: Seq<(usize, &MacroInvocation)>) -> Seq<(usize, MacroInvocation)> {
    s.map_values(|f: (usize, &MacroInvocation)| (f.0, *f.1))
}

/// A count of steps as a number.
pub open spec fn stalled_view(stalled: Option<usize>) -> Option<nat> {
    match stalled {
        Some(n) => Some(n as nat),
        None => None,
    }
}

/// The state after the call reflects `res`: its bytes are appended at the old
/// offset, the offset moves past them, a recorded jump lands in the table,
/// and a failure leaves everything as it was.
pub open spec fn resolution_applied(
    res: Resolution,
    r: Result<Resolved, CodegenError>,
    old_bytes: Seq<(usize, Vec<u8>)>,
    new_bytes: Seq<(usize, Vec<u8>)>,
    old_offset: usize,
    new_offset: usize,
    old_table: JumpTable,
    new_table: JumpTable,
) -> bool {
    match res {
        Resolution::Fail(k, sp) => {
            &&& r matches Err(e) && e.kind == k && e.span@ == sp && e.token is None
            &&& new_bytes == old_bytes
            &&& new_offset == old_offset
            &&& new_table@ == old_table@
            &&& log_view(new_table.history()) == log_view(old_table.history())
        },
        Resolution::Skip => {
            &&& r == Ok::<Resolved, CodegenError>(Resolved::ArgumentMissing)
            &&& new_bytes == old_bytes
            &&& new_offset == old_offset
            &&& new_table@ == old_table@
            &&& log_view(new_table.history()) == log_view(old_table.history())
        },
        Resolution::Emit(b) => {
            &&& r == Ok::<Resolved, CodegenError>(Resolved::Emitted)
            &&& frags_view(new_bytes) == frags_view(old_bytes).push((old_offset, b))
            &&& new_offset == old_offset + b.len()
            &&& new_table@ == old_table@
            &&& log_view(new_table.history()) == log_view(old_table.history())
        },
        Resolution::Jump { key, label, span } => {
            &&& r == Ok::<Resolved, CodegenError>(Resolved::Emitted)
            &&& frags_view(new_bytes) == frags_view(old_bytes).push(
                (old_offset, placeholder_encoding()),
            )
            &&& new_offset == old_offset + 3
            &&& new_table@ == old_table@.insert(
                key,
                seq![JumpModel { label, bytecode_index: 0, span }],
            )
            &&& log_view(new_table.history()) == log_view(old_table.history()).push(
                (key, seq![JumpModel { label, bytecode_index: 0, span }]),
            )
        },
    }
}

proof fn lemma_first_match(keys: Seq<Option<Seq<char>>>, name: Seq<char>, i: int)
    requires
        is_first_match(keys, name, i),
    ensures
        first_match(keys, name) == Some(i),
{
    let k = choose|k: int| is_first_match(keys, name, k);
    assert(is_first_match(keys, name, k));
    if k < i {
        assert(keys[k] != Some(name));
    }
    if i < k {
        assert(keys[i] != Some(name));
    }
}

/// Position of the first constant named `name`.
pub(crate) fn find_constant(constants: &Vec<ConstantDefinition>, name: &String) -> (r: Option<usize>)
    ensures
        r is None ==> first_match(constant_keys(constants@), name@) is None,
        r matches Some(i) ==> first_match(constant_keys(constants@), name@) == Some(i as int),
{
    let ghost keys = constant_keys(constants@);
    let mut i: usize = 0;
    while i < constants.len()
        invariant
            i <= constants@.len(),
            keys == constant_keys(constants@),
            forall|j: int| 0 <= j < i ==> keys[j] != Some(name@),
        decreases constants@.len() - i,
    {
        if constants[i].name == *name {
            proof {
                lemma_first_match(keys, name@, i as int);
            }
            return Some(i);
        }
        i = i + 1;
    }
    proof {
        if exists|k: int| is_first_match(keys, name@, k) {
            let k = choose|k: int| is_first_match(keys, name@, k);
            assert(keys[k] != Some(name@));
        }
    }
    None
}

/// Position of the first parameter named `name`.
fn find_parameter(params: &Vec<Argument>, name: &String) -> (r: Option<usize>)
    ensures
        r is None ==> first_match(param_keys(params@), name@) is None,
        r matches Some(i) ==> first_match(param_keys(params@), name@) == Some(i as int),
{
    let ghost keys = param_keys(params@);
    let mut i: usize = 0;
    while i < params.len()
        invariant
            i <= params@.len(),
            keys == param_keys(params@),
            forall|j: int| 0 <= j < i ==> keys[j] != Some(name@),
        decreases params@.len() - i,
    {
        match &params[i].name {
            Some(s) => {
                if *s == *name {
                    proof {
                        lemma_first_match(keys, name@, i as int);
                    }
                    return Some(i);
                }
            },
            None => {},
        }
        i = i + 1;
    }
    proof {
        if exists|k: int| is_first_match(keys, name@, k) {
            let k = choose|k: int| is_first_match(keys, name@, k);
            assert(keys[k] != Some(name@));
        }
    }
    None
}

/// Appends `b` at the current offset and moves the offset past it.
pub(crate) fn emit(bytes: &mut Vec<(usize, Vec<u8>)>, offset: &mut usize, b: Vec<u8>)
    requires
        *old(offset) + b@.len() <= usize::MAX,
    ensures
        frags_view(final(bytes)@) == frags_view(old(bytes)@).push((*old(offset), b@)),
        *final(offset) == *old(offset) + b@.len(),
{
    let n = b.len();
    bytes.push((*offset, b));
    *offset = *offset + n;
    assert(frags_view(bytes@) =~= frags_view(old(bytes)@).push((*old(offset), b@)));
}

/// Emits a placeholder at the current offset and records a jump to `label`
/// at `key`.
pub(crate) fn emit_jump(
    bytes: &mut Vec<(usize, Vec<u8>)>,
    offset: &mut usize,
    jump_table: &mut JumpTable,
    key: usize,
    label: String,
    span: AstSpan,
)
    requires
        *old(offset) + 3 <= usize::MAX,
    ensures
        frags_view(final(bytes)@) == frags_view(old(bytes)@).push(
            (*old(offset), placeholder_encoding()),
        ),
        *final(offset) == *old(offset) + 3,
        final(jump_table)@ == old(jump_table)@.insert(
            key,
            seq![JumpModel { label: label@, bytecode_index: 0, span: span@ }],
        ),
        log_view(final(jump_table).history()) == log_view(old(jump_table).history()).push(
            (key, seq![JumpModel { label: label@, bytecode_index: 0, span: span@ }]),
        ),
        final(jump_table).history().len() == old(jump_table).history().len() + 1,
{
    let jump = Jump { label, bytecode_index: 0, span };
    let jumps: Vec<Jump> = vec![jump];
    assert(jumps_view(jumps@) =~= seq![jump@]);
    jump_table.insert(key, jumps);
    assert(log_view(jump_table.history()) =~= log_view(old(jump_table).history()).push(
        (key, seq![jump@]),
    ));
    emit(bytes, offset, push2_placeholder());
}

/// Resolution with the scope and invocation stacks cut to their first
/// `scope_len` and `mis_len` frames.
pub(crate) fn resolve_within<'a>(
    name: &String,
    def: &'a MacroDefinition,
    contract: &'a Contract,
    scope: &Vec<&'a MacroDefinition>,
    scope_len: usize,
    mis: &Vec<(usize, &'a MacroInvocation)>,
    mis_len: usize,
    stalled: Option<usize>,
    bytes: &mut Vec<(usize, Vec<u8>)>,
    offset: &mut usize,
    jump_table: &mut JumpTable,
) -> (r: Result<Resolved, CodegenError>)
    requires
        scope_len <= scope@.len(),
        mis_len <= mis@.len(),
        *old(offset) + 33 <= usize::MAX,
    ensures
        resolution_applied(
            resolve_walk(
                name@,
                *def,
                *contract,
                defs_of(scope@.subrange(0, scope_len as int)),
                frames_of(mis@.subrange(0, mis_len as int)),
                *old(offset),
                stalled_view(stalled),
            ),
            r,
            old(bytes)@,
            final(bytes)@,
            *old(offset),
            *final(offset),
            *old(jump_table),
            *final(jump_table),
        ),
    decreases scope_len + mis_len, stall_measure(
        defs_of(scope@.subrange(0, scope_len as int)),
        stalled_view(stalled),
    ),
{
    let ghost sc = defs_of(scope@.subrange(0, scope_len as int));
    let ghost ms = frames_of(mis@.subrange(0, mis_len as int));
    match find_constant(&contract.constants, name) {
        Some(i) => {
            match &contract.constants[i].value {
                ConstVal::Literal(l) => {
                    emit(bytes, offset, encode_push(l));
                    Ok(Resolved::Emitted)
                },
                ConstVal::FreeStoragePointer => {
                    let none = AstSpan(Vec::new());
                    assert(none@ =~= Seq::<Span>::empty());
                    Err(
                        CodegenError {
                            kind: CodegenErrorKind::StoragePointersNotDerived,
                            span: none,
                            token: None,
                        },
                    )
                },
            }
        },
        None => {
            match resolve_opcode(name.as_str()) {
                Some(b) => {
                    let v: Vec<u8> = vec![b];
                    assert(v@ =~= seq![b]);
                    emit(bytes, offset, v);
                    Ok(Resolved::Emitted)
                },
                None => {
                    if mis_len == 0 {
                        let none = AstSpan(Vec::new());
                        assert(none@ =~= Seq::<Span>::empty());
                        emit_jump(bytes, offset, jump_table, 0, name.clone(), none);
                        return Ok(Resolved::Emitted);
                    }
                    let top = mis[mis_len - 1];
                    assert(ms.last() == (top.0, *top.1));
                    match find_parameter(&def.parameters, name) {
                        None => {
                            emit_jump(bytes, offset, jump_table, top.0, name.clone(), top.1.span.duplicate());
                            Ok(Resolved::Emitted)
                        },
                        Some(p) => {
                            if p >= top.1.args.len() {
                                return Ok(Resolved::ArgumentMissing);
                            }
                            match &top.1.args[p] {
                                MacroArg::Literal(l) => {
                                    emit(bytes, offset, encode_push(l));
                                    Ok(Resolved::Emitted)
                                },
                                MacroArg::Ident(id) => {
                                    let key = *offset;
                                    emit_jump(bytes, offset, jump_table, key, id.clone(), top.1.span.duplicate());
                                    Ok(Resolved::Emitted)
                                },
                                MacroArg::ArgCall(inner) => {
                                    let popped = top.1.macro_name == def.name;
                                    let up_len = if popped {
                                        mis_len - 1
                                    } else {
                                        mis_len
                                    };
                                    assert(ms.drop_last() =~= frames_of(mis@.subrange(0, mis_len - 1)));
                                    if scope_len == 0 {
                                        return Err(
                                            CodegenError {
                                                kind: CodegenErrorKind::MissingMacroInvocation(
                                                    def.name.clone(),
                                                ),
                                                span: def.span.duplicate(),
                                                token: None,
                                            },
                                        );
                                    }
                                    assert(sc.last() == *scope@[scope_len - 1]);
                                    if scope_len >= 2 && scope_len >= mis_len {
                                        let outer = scope[scope_len - 2];
                                        assert(sc.drop_last() =~= defs_of(scope@.subrange(0, scope_len - 1)));
                                        return resolve_within(
                                            inner,
                                            outer,
                                            contract,
                                            scope,
                                            scope_len - 1,
                                            mis,
                                            up_len,
                                            None,
                                            bytes,
                                            offset,
                                            jump_table,
                                        );
                                    }
                                    let outer = scope[scope_len - 1];
                                    if popped {
                                        return resolve_within(
                                            inner,
                                            outer,
                                            contract,
                                            scope,
                                            scope_len,
                                            mis,
                                            up_len,
                                            None,
                                            bytes,
                                            offset,
                                            jump_table,
                                        );
                                    }
                                    let next = match stalled {
                                        None => Some(outer.parameters.len()),
                                        Some(left) => {
                                            if left == 0 {
                                                return Err(
                                                    CodegenError {
                                                        kind: CodegenErrorKind::MissingMacroInvocation(
                                                            def.name.clone(),
                                                        ),
                                                        span: def.span.duplicate(),
                                                        token: None,
                                                    },
                                                );
                                            }
                                            Some(left - 1)
                                        },
                                    };
                                    resolve_within(
                                        inner,
                                        outer,
                                        contract,
                                        scope,
                                        scope_len,
                                        mis,
                                        mis_len,
                                        next,
                                        bytes,
                                        offset,
                                        jump_table,
                                    )
                                },
                            }
                        },
                    }
                },
            }
        },
    }
}

/// Resolves the name `arg_name` met in the body of `macro_def` and emits what
/// it stands for at `offset`; see [`resolve`]. The stacks are left as they were.
pub fn bubble_arg_call(
    arg_name: &str,
    bytes: &mut Vec<(usize, Vec<u8>)>,
    macro_def: &MacroDefinition,
    contract: &Contract,
    scope: &mut Vec<MacroDefinition>,
    offset: &mut usize,
    mis: &mut Vec<(usize, MacroInvocation)>,
    jump_table: &mut JumpTable,
) -> (r: Result<Resolved, CodegenError>)
    requires
        *old(offset) + 33 <= usize::MAX,
    ensures
        final(scope)@ == old(scope)@,
        final(mis)@ == old(mis)@,
        resolution_applied(
            resolve(arg_name@, *macro_def, *contract, old(scope)@, old(mis)@, *old(offset)),
            r,
            old(bytes)@,
            final(bytes)@,
            *old(offset),
            *final(offset),
            *old(jump_table),
            *final(jump_table),
        ),
{
    let name = arg_name.to_owned();
    let mut defs: Vec<&MacroDefinition> = Vec::new();
    let mut i: usize = 0;
    while i < scope.len()
        invariant
            i <= scope@.len(),
            defs@.len() == i,
            forall|k: int| 0 <= k < i ==> *defs@[k] == scope@[k],
        decreases scope@.len() - i,
    {
        defs.push(&scope[i]);
        i = i + 1;
    }
    let mut frames: Vec<(usize, &MacroInvocation)> = Vec::new();
    let mut j: usize = 0;
    while j < mis.len()
        invariant
            j <= mis@.len(),
            frames@.len() == j,
            forall|k: int| 0 <= k < j ==> (frames@[k].0, *frames@[k].1) == mis@[k],
        decreases mis@.len() - j,
    {
        frames.push((mis[j].0, &mis[j].1));
        j = j + 1;
    }
    assert(defs@.subrange(0, i as int) == defs@);
    assert(frames@.subrange(0, j as int) == frames@);
    assert(defs_of(defs@.subrange(0, i as int)) =~= scope@);
    assert(frames_of(frames@.subrange(0, j as int)) =~= mis@);
    resolve_within(&name, macro_def, contract, &defs, i, &frames, j, None, bytes, offset, jump_table)
}

/// A name that is both a constant and an opcode resolves to the constant:
/// the push of its value, never the opcode's byte. Such overlaps are best
/// avoided, since labels come last and are shadowed by both.
pub proof fn lemma_constant_shadows_opcode(
    name: Seq<char>,
    def: MacroDefinition,
    contract: Contract,
    scope: Seq<MacroDefinition>,
    mis: Seq<(usize, MacroInvocation)>,
    offset: usize,
    i: int,
    l: [u8; 32],
)
    requires
        0 <= i < contract.constants@.len(),
        contract.constants@[i].name@ == name,
        contract.constants@[i].value == ConstVal::Literal(l),
        forall|j: int|
            0 <= j < contract.constants@.len() && j != i ==> contract.constants@[j].name@ != name,
        opcode_of(name) is Some,
    ensures
        resolve(name, def, contract, scope, mis, offset) == Resolution::Emit(push_encoding(l@)),
        resolve(name, def, contract, scope, mis, offset) != Resolution::Emit(
            seq![opcode_of(name)->Some_0],
        ),
{
    let keys = constant_keys(contract.constants@);
    assert forall|j: int| 0 <= j < i implies keys[j] != Some(name) by {
        assert(contract.constants@[j].name@ != name);
    }
    lemma_first_match(keys, name, i);
    lemma_push_encoding_len(l@);
    assert(seq![opcode_of(name)->Some_0].len() == 1);
}

/// One step of bubbling: when the invocation of `def` passed `ArgCall(inner)`
/// for its parameter `name`, resolving `name` in `def` is resolving `inner`
/// in the caller's definition, with both stacks one frame shorter. The scope
/// stack is at least as deep as the invocation stack, as in expansion, where
/// it holds one more definition.
pub proof fn lemma_bubbling_step(
    name: Seq<char>,
    def: MacroDefinition,
    contract: Contract,
    scope: Seq<MacroDefinition>,
    mis: Seq<(usize, MacroInvocation)>,
    offset: usize,
    p: int,
    inner: String,
)
    requires
        first_match(constant_keys(contract.constants@), name) is None,
        opcode_of(name) is None,
        mis.len() > 0,
        scope.len() >= 2,
        scope.len() >= mis.len(),
        mis.last().1.macro_name@ == def.name@,
        first_match(param_keys(def.parameters@), name) == Some(p),
        p < mis.last().1.args@.len(),
        mis.last().1.args@[p] == MacroArg::ArgCall(inner),
    ensures
        resolve(name, def, contract, scope, mis, offset) == resolve(
            inner@,
            scope[scope.len() - 2],
            contract,
            scope.drop_last(),
            mis.drop_last(),
            offset,
        ),
{
}

/// Bubbling reaches the value: when an invocation of `def` from inside the
/// macro `scope[scope.len() - 2]` passed that macro's parameter `inner` for
/// `name`, and the caller passed the literal `l` for `inner`, then `name`
/// emits the push of `l`, which is what `inner` emits in the caller.
pub proof fn lemma_bubbling_reaches_literal(
    name: Seq<char>,
    def: MacroDefinition,
    contract: Contract,
    scope: Seq<MacroDefinition>,
    mis: Seq<(usize, MacroInvocation)>,
    offset: usize,
    p: int,
    inner: String,
    q: int,
    l: [u8; 32],
)
    requires
        first_match(constant_keys(contract.constants@), name) is None,
        opcode_of(name) is None,
        mis.len() >= 2,
        scope.len() >= 2,
        scope.len() >= mis.len(),
        mis.last().1.macro_name@ == def.name@,
        first_match(param_keys(def.parameters@), name) == Some(p),
        p < mis.last().1.args@.len(),
        mis.last().1.args@[p] == MacroArg::ArgCall(inner),
        first_match(constant_keys(contract.constants@), inner@) is None,
        opcode_of(inner@) is None,
        first_match(param_keys(scope[scope.len() - 2].parameters@), inner@) == Some(q),
        q < mis[mis.len() - 2].1.args@.len(),
        mis[mis.len() - 2].1.args@[q] == MacroArg::Literal(l),
    ensures
        resolve(name, def, contract, scope, mis, offset) == Resolution::Emit(push_encoding(l@)),
        resolve(name, def, contract, scope, mis, offset) == resolve(
            inner@,
            scope[scope.len() - 2],
            contract,
            scope.drop_last(),
            mis.drop_last(),
            offset,
        ),
{
    lemma_bubbling_step(name, def, contract, scope, mis, offset, p, inner);
    assert(mis.drop_last().last() == mis[mis.len() - 2]);
}

/// A resolution that emits bytes emits between one and 33 of them.
pub proof fn lemma_resolution_size(
    name: Seq<char>,
    def: MacroDefinition,
    contract: Contract,
    scope: Seq<MacroDefinition>,
    mis: Seq<(usize, MacroInvocation)>,
    offset: usize,
)
    ensures
        resolve(name, def, contract, scope, mis, offset) matches Resolution::Emit(b) ==> 1 <= b.len() <= 33,
{
    lemma_walk_size(name, def, contract, scope, mis, offset, None);
}

proof fn lemma_walk_size(
    name: Seq<char>,
    def: MacroDefinition,
    contract: Contract,
    scope: Seq<MacroDefinition>,
    mis: Seq<(usize, MacroInvocation)>,
    offset: usize,
    stalled: Option<nat>,
)
    ensures
        resolve_walk(name, def, contract, scope, mis, offset, stalled) matches Resolution::Emit(b) ==> 1
            <= b.len() <= 33,
    decreases scope.len() + mis.len(), stall_measure(scope, stalled),
{
    match first_match(constant_keys(contract.constants@), name) {
        Some(i) => match contract.constants@[i].value {
            ConstVal::Literal(l) => lemma_push_encoding_len(l@),
            _ => {},
        },
        None => if opcode_of(name) is None && mis.len() > 0 {
            let top = mis.last();
            match first_match(param_keys(def.parameters@), name) {
                Some(p) => if p < top.1.args@.len() {
                    match top.1.args@[p] {
                        MacroArg::Literal(l) => lemma_push_encoding_len(l@),
                        MacroArg::ArgCall(inner) => {
                            let popped = top.1.macro_name@ == def.name@;
                            let up = if popped {
                                mis.drop_last()
                            } else {
                                mis
                            };
                            if scope.len() >= 2 && scope.len() >= mis.len() {
                                lemma_walk_size(inner@, scope[scope.len() - 2], contract, scope.drop_last(), up, offset, None);
                            } else if scope.len() >= 1 {
                                if popped {
                                    lemma_walk_size(inner@, scope.last(), contract, scope, up, offset, None);
                                } else {
                                    match stalled {
                                        None => lemma_walk_size(inner@, scope.last(), contract, scope, mis, offset, Some(scope.last().parameters@.len())),
                                        Some(left) => if left > 0 {
                                            lemma_walk_size(inner@, scope.last(), contract, scope, mis, offset, Some((left - 1) as nat));
                                        },
                                    }
                                }
                            }
                        },
                        _ => {},
                    }
                },
                None => {},
            }
        },
    }
}

} // verus!
