//! The three-address intermediate representation and the program that owns it.
//!
//! Every entity lives in a vector of its kind; the entity with identifier `k`
//! is the `k`-th one allocated and stands at index `k - 1`.
use vstd::prelude::*;
use crate::common::Span;

verus! {

#[derive(Debug, Clone, Copy, PartialEq, Eq, PartialOrd, Ord, Hash, Structural)]
pub struct ProgramId(pub u32);

#[derive(Debug, Clone, Copy, PartialEq, Eq, PartialOrd, Ord, Hash, Structural)]
pub struct ModuleId(pub u32);

#[derive(Debug, Clone, Copy, PartialEq, Eq, PartialOrd, Ord, Hash, Structural)]
pub struct TypeId(pub u32);

#[derive(Debug, Clone, Copy, PartialEq, Eq, PartialOrd, Ord, Hash, Structural)]
pub struct MethodId(pub u32);

#[derive(Debug, Clone, Copy, PartialEq, Eq, PartialOrd, Ord, Hash, Structural)]
pub struct FieldId(pub u32);

#[derive(Debug, Clone, Copy, PartialEq, Eq, PartialOrd, Ord, Hash, Structural)]
pub struct InstructionId(pub u32);

#[derive(Debug, Clone, Copy, PartialEq, Eq, PartialOrd, Ord, Hash, Structural)]
pub struct Label(pub u32);

/// A literal value; floats keep their source text.
#[derive(Debug, Clone, PartialEq, Eq, Hash)]
pub enum Constant {
    Int(i64),
    Float(String),
    String(String),
    Bool(bool),
    Null,
}

/// A literal over character sequences.
pub enum ConstantView {
    Int(i64),
    Float(Seq<char>),
    String(Seq<char>),
    Bool(bool),
    Null,
}

impl View for Constant {
    type V = ConstantView;

    open spec fn view(&self) -> ConstantView {
        match self {
            Constant::Int(i) => ConstantView::Int(*i),
            Constant::Float(f) => ConstantView::Float(f@),
            Constant::String(s) => ConstantView::String(s@),
            Constant::Bool(b) => ConstantView::Bool(*b),
            Constant::Null => ConstantView::Null,
        }
    }
}

/// The text that the derived `Debug` of a constant writes, such as
/// `Int(1)` or `String("a")`.
pub open spec fn constant_debug_text(c: ConstantView) -> Seq<char> {
    match c {
        ConstantView::Int(i) => "Int("@ + crate::text::signed_decimal(i as int) + ")"@,
        ConstantView::Float(f) => "Float("@ + crate::text::quoted(f) + ")"@,
        ConstantView::String(t) => "String("@ + crate::text::quoted(t) + ")"@,
        ConstantView::Bool(b) => if b { "Bool(true)"@ } else { "Bool(false)"@ },
        ConstantView::Null => "Null"@,
    }
}

/// The text that the derived `Debug` of a constant writes.
pub(crate) fn debug_text_of(c: &Constant) -> (r: String)
    ensures
        r@ == constant_debug_text(c@),
{
    match c {
        Constant::Int(i) => {
            let mut s = String::from_str("Int(");
            crate::text::push_signed_decimal(&mut s, *i);
            s.append(")");
            s
        },
        Constant::Float(f) => {
            let mut s = String::from_str("Float(");
            let q = crate::text::debug_quoted(f.as_str());
            s.append(q.as_str());
            s.append(")");
            s
        },
        Constant::String(t) => {
            let mut s = String::from_str("String(");
            let q = crate::text::debug_quoted(t.as_str());
            s.append(q.as_str());
            s.append(")");
            s
        },
        Constant::Bool(b) => {
            if *b { String::from_str("Bool(true)") } else { String::from_str("Bool(false)") }
        },
        Constant::Null => String::from_str("Null"),
    }
}

/// An instruction operand: a named variable, a numbered temporary or a literal.
#[derive(Debug, Clone, PartialEq, Eq, Hash)]
pub enum Operand {
    Var(String),
    Temp(u32),
    Const(Constant),
}

#[derive(Debug, Clone, PartialEq, Eq, Hash)]
pub enum InstructionKind {
    /// dest = src
    Assign { dest: Operand, src: Operand },
    /// dest = op arg
    UnaryOp { dest: Operand, op: String, arg: Operand },
    /// dest = lhs op rhs
    BinaryOp { dest: Operand, op: String, lhs: Operand, rhs: Operand },
    /// dest = alloc class_name
    Alloc { dest: Operand, class_name: String },
    /// dest = base.field
    HeapLoad { dest: Operand, base: Operand, field: String },
    /// base.field = src
    HeapStore { base: Operand, field: String, src: Operand },
    /// if cond goto target
    Branch { cond: Operand, target: Label },
    /// goto target
    Jump { target: Label },
    /// Label marker
    Label(Label),
    /// dest = phi(incoming), each incoming value paired with the label it comes from
    Phi { dest: Operand, incoming: Vec<(Operand, Label)> },
    /// [dest =] call callee(args)
    Call { dest: Option<Operand>, callee: String, args: Vec<Operand> },
    /// return [val]
    Return { val: Option<Operand> },
}

#[derive(Debug, Clone, PartialEq, Eq)]
pub struct Instruction {
    pub id: InstructionId,
    pub kind: InstructionKind,
    pub span: Option<Span>,
}

#[derive(Debug, Clone)]
pub struct Field {
    pub id: FieldId,
    pub name: String,
    pub parent_type_id: TypeId,
}

#[derive(Debug, Clone)]
pub struct Method {
    pub id: MethodId,
    pub name: String,
    pub parent_type_id: Option<TypeId>,
    pub parameters: Vec<String>,
    pub body: Vec<InstructionId>,
}

#[derive(Debug, Clone)]
pub struct Type {
    pub id: TypeId,
    pub name: String,
    pub parent_type: Option<String>,
    pub fields: Vec<FieldId>,
    pub methods: Vec<MethodId>,
}

#[derive(Debug, Clone)]
pub struct Module {
    pub id: ModuleId,
    pub name: String,
    pub file_path: String,
    pub types: Vec<TypeId>,
    pub methods: Vec<MethodId>,
}

/// A whole program: every module, type, method, field and instruction,
/// and the source text of each file by path.
#[derive(Debug, Clone)]
pub struct Program {
    pub id: ProgramId,
    pub modules: Vec<Module>,
    pub types: Vec<Type>,
    pub methods: Vec<Method>,
    pub fields: Vec<Field>,
    pub instructions: Vec<Instruction>,
    pub source_files: Vec<(String, String)>,
}

impl Program {
    /// Each entity sits at the index one below its identifier, so the next
    /// identifier of a kind is one above the number of entities of that kind.
    pub open spec fn wf(&self) -> bool {
        &&& forall|i: int| 0 <= i < self.modules@.len() ==> (#[trigger] self.modules@[i]).id.0 == i + 1
        &&& forall|i: int| 0 <= i < self.types@.len() ==> (#[trigger] self.types@[i]).id.0 == i + 1
        &&& forall|i: int| 0 <= i < self.methods@.len() ==> (#[trigger] self.methods@[i]).id.0 == i + 1
        &&& forall|i: int| 0 <= i < self.fields@.len() ==> (#[trigger] self.fields@[i]).id.0 == i + 1
        &&& forall|i: int| 0 <= i < self.instructions@.len() ==> (#[trigger] self.instructions@[i]).id.0 == i + 1
    }

    /// Every instruction that a method body names is one the program has.
    pub open spec fn bodies_known(&self) -> bool {
        forall|i: int, j: int| #![trigger self.methods@[i].body@[j]]
            0 <= i < self.methods@.len() && 0 <= j < self.methods@[i].body@.len()
            ==> self.instruction_index(self.methods@[i].body@[j]) is Some
    }

    /// The module with identifier `id`, if there is one.
    pub open spec fn module_index(&self, id: ModuleId) -> Option<int> {
        if 1 <= id.0 <= self.modules@.len() { Some(id.0 - 1) } else { None }
    }

    pub open spec fn type_index(&self, id: TypeId) -> Option<int> {
        if 1 <= id.0 <= self.types@.len() { Some(id.0 - 1) } else { None }
    }

    pub open spec fn method_index(&self, id: MethodId) -> Option<int> {
        if 1 <= id.0 <= self.methods@.len() { Some(id.0 - 1) } else { None }
    }

    pub open spec fn instruction_index(&self, id: InstructionId) -> Option<int> {
        if 1 <= id.0 <= self.instructions@.len() { Some(id.0 - 1) } else { None }
    }

    /// An empty program with identifier 1.
    pub fn new() -> (p: Self)
        ensures
            p.wf(),
            p.id == ProgramId(1),
            p.modules@.len() == 0,
            p.types@.len() == 0,
            p.methods@.len() == 0,
            p.fields@.len() == 0,
            p.instructions@.len() == 0,
            p.source_files@.len() == 0,
    {
        Program {
            id: ProgramId(1),
            modules: Vec::new(),
            types: Vec::new(),
            methods: Vec::new(),
            fields: Vec::new(),
            instructions: Vec::new(),
            source_files: Vec::new(),
        }
    }

    /// Adds an empty module and returns its fresh identifier.
    pub fn alloc_module(&mut self, name: String, file_path: String) -> (id: ModuleId)
        requires
            old(self).wf(),
            old(self).modules@.len() + 1 < u32::MAX,
        ensures
            final(self).wf(),
            id.0 == old(self).modules@.len() + 1,
            final(self).modules@ == old(self).modules@.push(Module {
                id,
                name,
                file_path,
                types: final(self).modules@.last().types,
                methods: final(self).modules@.last().methods,
            }),
            final(self).modules@.last().types@.len() == 0,
            final(self).modules@.last().methods@.len() == 0,
            final(self).types == old(self).types,
            final(self).methods == old(self).methods,
            final(self).fields == old(self).fields,
            final(self).instructions == old(self).instructions,
            final(self).source_files == old(self).source_files,
            final(self).id == old(self).id,
    {
        let id = ModuleId((self.modules.len() + 1) as u32);
        let module = Module { id, name, file_path, types: Vec::new(), methods: Vec::new() };
        self.modules.push(module);
        id
    }

    /// Adds a type and records it in its module, when that module exists.
    pub fn alloc_type(&mut self, name: String, parent_type: Option<String>, module_id: ModuleId) -> (id: TypeId)
        requires
            old(self).wf(),
            old(self).types@.len() + 1 < u32::MAX,
        ensures
            final(self).wf(),
            id.0 == old(self).types@.len() + 1,
            final(self).types@.len() == old(self).types@.len() + 1,
            final(self).types@.drop_last() == old(self).types@,
            final(self).types@.last().id == id,
            final(self).types@.last().name == name,
            final(self).types@.last().parent_type == parent_type,
            final(self).types@.last().fields@.len() == 0,
            final(self).types@.last().methods@.len() == 0,
            final(self).modules@.len() == old(self).modules@.len(),
            forall|i: int| 0 <= i < old(self).modules@.len() && Some(i) != old(self).module_index(module_id)
                ==> final(self).modules@[i] == old(self).modules@[i],
            old(self).module_index(module_id) matches Some(k) ==> {
                let m0 = old(self).modules@[k];
                let m1 = final(self).modules@[k];
                &&& m1.id == m0.id
                &&& m1.name == m0.name
                &&& m1.file_path == m0.file_path
                &&& m1.methods == m0.methods
                &&& m1.types@ == m0.types@.push(id)
            },
            final(self).methods == old(self).methods,
            final(self).fields == old(self).fields,
            final(self).instructions == old(self).instructions,
            final(self).source_files == old(self).source_files,
            final(self).id == old(self).id,
    {
        let id = TypeId((self.types.len() + 1) as u32);
        let ty = Type { id, name, parent_type, fields: Vec::new(), methods: Vec::new() };
        self.types.push(ty);
        if 1 <= module_id.0 && (module_id.0 as usize) <= self.modules.len() {
            let k = (module_id.0 - 1) as usize;
            let mut m = self.modules.remove(k);
            m.types.push(id);
            self.modules.insert(k, m);
        }
        id
    }

    /// Adds a method, records it in its parent type and in its module when
    /// those exist, and returns its fresh identifier.
    pub fn alloc_method(
        &mut self,
        name: String,
        parent_type_id: Option<TypeId>,
        parameters: Vec<String>,
        module_id: Option<ModuleId>,
    ) -> (id: MethodId)
        requires
            old(self).wf(),
            old(self).methods@.len() + 1 < u32::MAX,
        ensures
            final(self).wf(),
            id.0 == old(self).methods@.len() + 1,
            final(self).methods@.len() == old(self).methods@.len() + 1,
            final(self).methods@.drop_last() == old(self).methods@,
            final(self).methods@.last().id == id,
            final(self).methods@.last().name == name,
            final(self).methods@.last().parent_type_id == parent_type_id,
            final(self).methods@.last().parameters == parameters,
            final(self).methods@.last().body@.len() == 0,
            final(self).types@.len() == old(self).types@.len(),
            forall|i: int| #![trigger final(self).types@[i]] 0 <= i < old(self).types@.len() ==> {
                let t0 = old(self).types@[i];
                let t1 = final(self).types@[i];
                &&& t1.id == t0.id
                &&& t1.name == t0.name
                &&& t1.parent_type == t0.parent_type
                &&& t1.fields == t0.fields
                &&& t1.methods@ == if parent_type_id == Some(t0.id) { t0.methods@.push(id) } else { t0.methods@ }
            },
            final(self).modules@.len() == old(self).modules@.len(),
            forall|i: int| #![trigger final(self).modules@[i]] 0 <= i < old(self).modules@.len() ==> {
                let m0 = old(self).modules@[i];
                let m1 = final(self).modules@[i];
                &&& m1.id == m0.id
                &&& m1.name == m0.name
                &&& m1.file_path == m0.file_path
                &&& m1.types == m0.types
                &&& m1.methods@ == if module_id == Some(m0.id) { m0.methods@.push(id) } else { m0.methods@ }
            },
            final(self).fields == old(self).fields,
            final(self).instructions == old(self).instructions,
            final(self).source_files == old(self).source_files,
            final(self).id == old(self).id,
    {
        let id = MethodId((self.methods.len() + 1) as u32);
        let method = Method { id, name, parent_type_id, parameters, body: Vec::new() };
        self.methods.push(method);
        if let Some(t_id) = parent_type_id {
            if 1 <= t_id.0 && (t_id.0 as usize) <= self.types.len() {
                let k = (t_id.0 - 1) as usize;
                let mut t = self.types.remove(k);
                t.methods.push(id);
                self.types.insert(k, t);
            }
        }
        if let Some(m_id) = module_id {
            if 1 <= m_id.0 && (m_id.0 as usize) <= self.modules.len() {
                let k = (m_id.0 - 1) as usize;
                let mut m = self.modules.remove(k);
                m.methods.push(id);
                self.modules.insert(k, m);
            }
        }
        id
    }

    /// Adds a field and records it in its parent type, when that type exists.
    pub fn alloc_field(&mut self, name: String, parent_type_id: TypeId) -> (id: FieldId)
        requires
            old(self).wf(),
            old(self).fields@.len() + 1 < u32::MAX,
        ensures
            final(self).wf(),
            id.0 == old(self).fields@.len() + 1,
            final(self).fields@ == old(self).fields@.push(Field { id, name, parent_type_id }),
            final(self).types@.len() == old(self).types@.len(),
            forall|i: int| #![trigger final(self).types@[i]] 0 <= i < old(self).types@.len() ==> {
                let t0 = old(self).types@[i];
                let t1 = final(self).types@[i];
                &&& t1.id == t0.id
                &&& t1.name == t0.name
                &&& t1.parent_type == t0.parent_type
                &&& t1.methods == t0.methods
                &&& t1.fields@ == if parent_type_id == t0.id { t0.fields@.push(id) } else { t0.fields@ }
            },
            final(self).modules == old(self).modules,
            final(self).methods == old(self).methods,
            final(self).instructions == old(self).instructions,
            final(self).source_files == old(self).source_files,
            final(self).id == old(self).id,
    {
        let id = FieldId((self.fields.len() + 1) as u32);
        self.fields.push(Field { id, name, parent_type_id });
        if 1 <= parent_type_id.0 && (parent_type_id.0 as usize) <= self.types.len() {
            let k = (parent_type_id.0 - 1) as usize;
            let mut t = self.types.remove(k);
            t.fields.push(id);
            self.types.insert(k, t);
        }
        id
    }

    /// Adds an instruction and returns its fresh identifier.
    pub fn alloc_instruction(&mut self, kind: InstructionKind, span: Option<Span>) -> (id: InstructionId)
        requires
            old(self).wf(),
            old(self).instructions@.len() + 1 < u32::MAX,
        ensures
            final(self).wf(),
            id.0 == old(self).instructions@.len() + 1,
            final(self).instructions@ == old(self).instructions@.push(Instruction { id, kind, span }),
            final(self).modules == old(self).modules,
            final(self).types == old(self).types,
            final(self).methods == old(self).methods,
            final(self).fields == old(self).fields,
            final(self).source_files == old(self).source_files,
            final(self).id == old(self).id,
    {
        let id = InstructionId((self.instructions.len() + 1) as u32);
        self.instructions.push(Instruction { id, kind, span });
        id
    }

    /// Appends an instruction to the body of a method, when that method exists.
    pub fn push_to_body(&mut self, method_id: MethodId, inst: InstructionId)
        requires
            old(self).wf(),
        ensures
            final(self).wf(),
            final(self).methods@.len() == old(self).methods@.len(),
            forall|i: int| #![trigger final(self).methods@[i]] 0 <= i < old(self).methods@.len() ==> {
                let m0 = old(self).methods@[i];
                let m1 = final(self).methods@[i];
                &&& m1.id == m0.id
                &&& m1.name == m0.name
                &&& m1.parent_type_id == m0.parent_type_id
                &&& m1.parameters == m0.parameters
                &&& m1.body@ == if method_id == m0.id { m0.body@.push(inst) } else { m0.body@ }
            },
            final(self).modules == old(self).modules,
            final(self).types == old(self).types,
            final(self).fields == old(self).fields,
            final(self).instructions == old(self).instructions,
            final(self).source_files == old(self).source_files,
            final(self).id == old(self).id,
    {
        if 1 <= method_id.0 && (method_id.0 as usize) <= self.methods.len() {
            let k = (method_id.0 - 1) as usize;
            let mut m = self.methods.remove(k);
            m.body.push(inst);
            self.methods.insert(k, m);
        }
    }

    /// Adds an instruction and appends it to the body of `method_id`;
    /// declines, changing nothing, when identifiers would run out.
    pub fn emit(&mut self, method_id: MethodId, kind: InstructionKind, span: Option<Span>) -> (r: bool)
        requires
            old(self).wf(),
            old(self).bodies_known(),
        ensures
            final(self).wf(),
            final(self).bodies_known(),
            r == (old(self).instructions@.len() + 2 < u32::MAX),
            !r ==> *final(self) == *old(self),
            r ==> final(self).instructions@ == old(self).instructions@.push(Instruction {
                id: InstructionId((old(self).instructions@.len() + 1) as u32),
                kind,
                span,
            }),
            final(self).modules == old(self).modules,
            final(self).types == old(self).types,
            final(self).fields == old(self).fields,
            final(self).methods@.len() == old(self).methods@.len(),
            forall|i: int| #![trigger final(self).methods@[i]] 0 <= i < old(self).methods@.len() ==> {
                let m0 = old(self).methods@[i];
                let m1 = final(self).methods@[i];
                &&& m1.id == m0.id
                &&& m1.name == m0.name
                &&& m1.parent_type_id == m0.parent_type_id
                &&& m1.parameters == m0.parameters
                &&& m1.body@ == if r && method_id == m0.id {
                    m0.body@.push(InstructionId((old(self).instructions@.len() + 1) as u32))
                } else {
                    m0.body@
                }
            },
    {
        if self.instructions.len() >= 0xffff_fffd {
            return false;
        }
        let ghost before = *self;
        let id = self.alloc_instruction(kind, span);
        let ghost mid = *self;
        self.push_to_body(method_id, id);
        assert forall|a: int, b: int| #![trigger self.methods@[a].body@[b]] 0 <= a < self.methods@.len() && 0 <= b < self.methods@[a].body@.len()
            implies self.instruction_index(self.methods@[a].body@[b]) is Some by {
            if b < mid.methods@[a].body@.len() {
                assert(self.methods@[a].body@[b] == mid.methods@[a].body@[b]);
                assert(mid.methods@[a] == before.methods@[a]);
            }
        }
        true
    }

    /// Whether each entity sits at the index one below its identifier, as
    /// `wf` says.
    pub fn wf_check(&self) -> (r: bool)
        ensures
            r == self.wf(),
    {
        let mut i: usize = 0;
        while i < self.modules.len()
            invariant i <= self.modules@.len(), forall|k: int| 0 <= k < i ==> (#[trigger] self.modules@[k]).id.0 == k + 1,
            decreases self.modules.len() - i,
        {
            if self.modules[i].id.0 as usize != i + 1 { return false; }
            i = i + 1;
        }
        let mut i: usize = 0;
        while i < self.types.len()
            invariant i <= self.types@.len(), forall|k: int| 0 <= k < i ==> (#[trigger] self.types@[k]).id.0 == k + 1,
            decreases self.types.len() - i,
        {
            if self.types[i].id.0 as usize != i + 1 { return false; }
            i = i + 1;
        }
        let mut i: usize = 0;
        while i < self.methods.len()
            invariant i <= self.methods@.len(), forall|k: int| 0 <= k < i ==> (#[trigger] self.methods@[k]).id.0 == k + 1,
            decreases self.methods.len() - i,
        {
            if self.methods[i].id.0 as usize != i + 1 { return false; }
            i = i + 1;
        }
        let mut i: usize = 0;
        while i < self.fields.len()
            invariant i <= self.fields@.len(), forall|k: int| 0 <= k < i ==> (#[trigger] self.fields@[k]).id.0 == k + 1,
            decreases self.fields.len() - i,
        {
            if self.fields[i].id.0 as usize != i + 1 { return false; }
            i = i + 1;
        }
        let mut i: usize = 0;
        while i < self.instructions.len()
            invariant i <= self.instructions@.len(), forall|k: int| 0 <= k < i ==> (#[trigger] self.instructions@[k]).id.0 == k + 1,
            decreases self.instructions.len() - i,
        {
            if self.instructions[i].id.0 as usize != i + 1 { return false; }
            i = i + 1;
        }
        true
    }

    /// Records the text of the file at `path`, replacing an earlier text
    /// for the same path.
    pub fn set_source_file(&mut self, path: String, text: String)
        ensures
            (exists|k: int| 0 <= k < old(self).source_files@.len() && (#[trigger] old(self).source_files@[k]).0@ == path@) ==> {
                let k = choose|k: int| 0 <= k < old(self).source_files@.len() && (#[trigger] old(self).source_files@[k]).0@ == path@
                    && forall|j: int| 0 <= j < k ==> old(self).source_files@[j].0@ != path@;
                final(self).source_files@ == old(self).source_files@.update(k, (path, text))
            },
            (forall|k: int| 0 <= k < old(self).source_files@.len() ==> (#[trigger] old(self).source_files@[k]).0@ != path@)
                ==> final(self).source_files@ == old(self).source_files@.push((path, text)),
            final(self).modules == old(self).modules,
            final(self).types == old(self).types,
            final(self).methods == old(self).methods,
            final(self).fields == old(self).fields,
            final(self).instructions == old(self).instructions,
            final(self).id == old(self).id,
    {
        let mut k: usize = 0;
        while k < self.source_files.len()
            invariant
                k <= self.source_files@.len(),
                *self == *old(self),
                forall|j: int| 0 <= j < k ==> self.source_files@[j].0@ != path@,
            decreases self.source_files.len() - k,
        {
            if crate::text::str_eq(self.source_files[k].0.as_str(), path.as_str()) {
                let ghost old_files = self.source_files@;
                self.source_files.remove(k);
                self.source_files.insert(k, (path, text));
                assert(self.source_files@ =~= old_files.update(k as int, (path, text)));
                return;
            }
            k = k + 1;
        }
        self.source_files.push((path, text));
    }

    /// The instruction with identifier `id`, if there is one.
    pub fn instruction(&self, id: InstructionId) -> (r: Option<&Instruction>)
        requires
            self.wf(),
        ensures
            r == (match self.instruction_index(id) {
                Some(k) => Some(&self.instructions@[k]),
                None => None,
            }),
    {
        if 1 <= id.0 && (id.0 as usize) <= self.instructions.len() {
            Some(&self.instructions[(id.0 - 1) as usize])
        } else {
            None
        }
    }

    /// The method with identifier `id`, if there is one.
    pub fn method(&self, id: MethodId) -> (r: Option<&Method>)
        requires
            self.wf(),
        ensures
            r == (match self.method_index(id) {
                Some(k) => Some(&self.methods@[k]),
                None => None,
            }),
    {
        if 1 <= id.0 && (id.0 as usize) <= self.methods.len() {
            Some(&self.methods[(id.0 - 1) as usize])
        } else {
            None
        }
    }

    /// The type with identifier `id`, if there is one.
    pub fn type_of(&self, id: TypeId) -> (r: Option<&Type>)
        requires
            self.wf(),
        ensures
            r == (match self.type_index(id) {
                Some(k) => Some(&self.types@[k]),
                None => None,
            }),
    {
        if 1 <= id.0 && (id.0 as usize) <= self.types.len() {
            Some(&self.types[(id.0 - 1) as usize])
        } else {
            None
        }
    }
}

} // verus!
