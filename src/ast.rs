use vstd::prelude::*;

verus! {

/// A byte range of one source file.
#[derive(Clone, Copy, Debug, PartialEq, Eq, PartialOrd, Ord, Structural)]
pub struct Span {
    pub start: usize,
    pub end: usize,
    /// Identifier of the source file.
    pub file: usize,
}

/// A chain of spans: a source location and the macro invocations around it.
#[derive(Clone, Debug, PartialEq, Eq, PartialOrd, Ord)]
pub struct AstSpan(pub Vec<Span>);

impl View for AstSpan {
    type V = Seq<Span>;

    open spec fn view(&self) -> Seq<Span> {
        self.0@
    }
}

impl AstSpan {
    /// A copy of the span chain, element by element.
    pub fn duplicate(&self) -> (r: AstSpan)
        ensures
            r@ == self@,
    {
        let mut v: Vec<Span> = Vec::new();
        let mut i: usize = 0;
        while i < self.0.len()
            invariant
                i <= self.0@.len(),
                v@ == self.0@.subrange(0, i as int),
            decreases self.0@.len() - i,
        {
            v.push(self.0[i]);
            i = i + 1;
        }
        AstSpan(v)
    }
}

/// A lexical token, as error reports name it.
#[derive(Clone, Debug, PartialEq, Eq, PartialOrd, Ord)]
pub enum TokenKind {
    /// End of file.
    Eof,
    /// An identifier.
    Ident(String),
    /// An opcode, by its byte.
    Opcode(u8),
    /// A 32-byte big-endian literal.
    Literal([u8; 32]),
    /// A decimal number.
    Num(usize),
    /// A string.
    Str(String),
}

/// The value of a constant definition.
#[derive(Clone, Debug, PartialEq, Eq)]
pub enum ConstVal {
    /// A 32-byte big-endian value.
    Literal([u8; 32]),
    /// A storage slot that an earlier pass has yet to turn into a literal.
    FreeStoragePointer,
}

/// `#define constant NAME = VALUE`
#[derive(Clone, Debug, PartialEq, Eq)]
pub struct ConstantDefinition {
    pub name: String,
    pub value: ConstVal,
    pub span: AstSpan,
}

/// One positional argument of a macro invocation.
#[derive(Clone, Debug, PartialEq, Eq)]
pub enum MacroArg {
    /// A 32-byte big-endian value.
    Literal([u8; 32]),
    /// A reference to a parameter of the enclosing macro.
    ArgCall(String),
    /// A bare identifier, resolved as a label when linking.
    Ident(String),
}

/// A call of a macro by name, with its arguments.
#[derive(Clone, Debug, PartialEq, Eq)]
pub struct MacroInvocation {
    pub macro_name: String,
    pub args: Vec<MacroArg>,
    pub span: AstSpan,
}

/// A parameter of a macro definition.
#[derive(Clone, Debug, PartialEq, Eq)]
pub struct Argument {
    pub name: Option<String>,
    pub span: AstSpan,
}

/// What a statement of a macro body does.
#[derive(Clone, Debug, PartialEq, Eq)]
pub enum StatementType {
    /// An opcode, by its byte.
    Opcode(u8),
    /// A push of a 32-byte big-endian value.
    LiteralPush([u8; 32]),
    /// A jump destination named by a label.
    LabelDef(String),
    /// A push of the offset of a label.
    LabelRef(String),
    /// A push of the value of a constant.
    ConstRef(String),
    /// A reference to a parameter of the macro, or anything the resolver accepts.
    ArgRef(String),
    /// An expansion of another macro.
    Invoke(MacroInvocation),
}

/// A statement of a macro body, with its location.
#[derive(Clone, Debug, PartialEq, Eq)]
pub struct Statement {
    pub ty: StatementType,
    pub span: AstSpan,
}

/// `#define macro NAME(params) = takes(..) returns(..) { statements }`
#[derive(Clone, Debug, PartialEq, Eq)]
pub struct MacroDefinition {
    pub name: String,
    pub parameters: Vec<Argument>,
    pub statements: Vec<Statement>,
    pub span: AstSpan,
}

/// The definitions code generation reads.
#[derive(Clone, Debug, PartialEq, Eq)]
pub struct Contract {
    pub macros: Vec<MacroDefinition>,
    pub constants: Vec<ConstantDefinition>,
}

/// A placeholder waiting for the offset of `label`.
#[derive(Clone, Debug, PartialEq, Eq)]
pub struct Jump {
    pub label: String,
    /// Offset the label resolved to; zero until linking.
    pub bytecode_index: usize,
    pub span: AstSpan,
}

/// The mathematical content of a [`Jump`].
pub struct JumpModel {
    pub label: Seq<char>,
    pub bytecode_index: usize,
    pub span: Seq<Span>,
}

impl View for Jump {
    type V = JumpModel;

    open spec fn view(&self) -> JumpModel {
        JumpModel { label: self.label@, bytecode_index: self.bytecode_index, span: self.span@ }
    }
}

/// The jumps recorded at one key.
pub open spec fn jumps_view(v: Seq<Jump>) -> Seq<JumpModel> {
    v.map_values(|j: Jump| j@)
}

/// The map a log of insertions describes: a later insertion at a key
/// replaces an earlier one.
pub open spec fn table_map(log: Seq<(usize, Vec<Jump>)>) -> Map<usize, Seq<JumpModel>>
    decreases log.len(),
{
    if log.len() == 0 {
        Map::empty()
    } else {
        table_map(log.drop_last()).insert(log.last().0, jumps_view(log.last().1@))
    }
}

/// The insertions of a log, with the jumps seen through their views.
pub open spec fn log_view(log: Seq<(usize, Vec<Jump>)>) -> Seq<(usize, Seq<JumpModel>)> {
    log.map_values(|e: (usize, Vec<Jump>)| (e.0, jumps_view(e.1@)))
}

/// Placeholder sites, each with the jumps to be patched there.
#[derive(Clone, Debug, PartialEq, Eq)]
pub struct JumpTable {
    log: Vec<(usize, Vec<Jump>)>,
}

impl View for JumpTable {
    type V = Map<usize, Seq<JumpModel>>;

    closed spec fn view(&self) -> Map<usize, Seq<JumpModel>> {
        table_map(self.log@)
    }
}

impl JumpTable {
    /// The insertions made so far, oldest first.
    pub closed spec fn history(&self) -> Seq<(usize, Vec<Jump>)> {
        self.log@
    }

    pub fn new() -> (r: JumpTable)
        ensures
            r@ == Map::<usize, Seq<JumpModel>>::empty(),
            r.history().len() == 0,
    {
        JumpTable { log: Vec::new() }
    }

    /// Records `jumps` at `key`, replacing what was there.
    pub fn insert(&mut self, key: usize, jumps: Vec<Jump>)
        ensures
            final(self)@ == old(self)@.insert(key, jumps_view(jumps@)),
            final(self).history() == old(self).history().push((key, jumps)),
    {
        self.log.push((key, jumps));
        assert(self.log@.drop_last() == old(self).log@);
    }

    /// The insertions made so far, oldest first.
    pub fn entries(&self) -> (r: &Vec<(usize, Vec<Jump>)>)
        ensures
            r@ == self.history(),
            table_map(r@) == self@,
    {
        &self.log
    }

    /// The jumps recorded at `key`.
    pub fn get(&self, key: usize) -> (r: Option<&Vec<Jump>>)
        ensures
            match r {
                Some(v) => self@.contains_key(key) && jumps_view(v@) == self@[key],
                None => !self@.contains_key(key),
            },
    {
        let mut i: usize = self.log.len();
        assert(self.log@.subrange(0, i as int) == self.log@);
        while i > 0
            invariant
                i <= self.log@.len(),
                forall|j: int| i <= j < self.log@.len() ==> self.log@[j].0 != key,
                table_map(self.log@).contains_key(key) == table_map(self.log@.subrange(0, i as int)).contains_key(key),
                table_map(self.log@).contains_key(key) ==> table_map(self.log@)[key] == table_map(self.log@.subrange(0, i as int))[key],
            decreases i,
        {
            let p = &self.log[i - 1];
            proof {
                let s = self.log@.subrange(0, i as int);
                assert(s.drop_last() == self.log@.subrange(0, i - 1));
            }
            if p.0 == key {
                return Some(&p.1);
            }
            i = i - 1;
        }
        None
    }
}

} // verus!
