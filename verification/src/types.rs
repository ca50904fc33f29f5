//! The syntax tree of a program, as the parser gives it.

use vstd::prelude::*;

verus! {

/// A name: of a principal, a variable or a field.
#[derive(Debug, PartialEq, Eq, Hash)]
pub struct Identifier {
    pub name: String,
}

impl View for Identifier {
    type V = Seq<char>;

    open spec fn view(&self) -> Seq<char> {
        self.name@
    }
}

impl Clone for Identifier {
    fn clone(&self) -> (res: Identifier)
        ensures
            res@ == self@,
    {
        Identifier { name: self.name.clone() }
    }
}

/// The principal a command speaks of.
#[derive(Debug, PartialEq, Eq, Hash)]
pub struct Principal {
    pub ident: Identifier,
}

impl View for Principal {
    type V = Seq<char>;

    open spec fn view(&self) -> Seq<char> {
        self.ident.name@
    }
}

impl Clone for Principal {
    fn clone(&self) -> (res: Principal)
        ensures
            res@ == self@,
    {
        Principal { ident: self.ident.clone() }
    }
}

/// A right, as written in a program.
#[derive(Clone, Copy, Debug, PartialEq, Eq, Hash, Structural)]
pub enum Right {
    Read,
    Write,
    Append,
    Delegate,
}

/// Whether a variable is local to a program or global.
#[derive(Clone, Copy, Debug, PartialEq, Eq, Hash, Structural)]
pub enum Scope {
    Local,
    Global,
}

impl std::ops::Not for Scope {
    type Output = Scope;

    /// The other scope.
    fn not(self) -> (res: Scope) {
        match self {
            Scope::Local => Scope::Global,
            Scope::Global => Scope::Local,
        }
    }
}

impl vstd::std_specs::ops::NotSpecImpl for Scope {
    open spec fn obeys_not_spec() -> bool {
        true
    }

    open spec fn not_req(self) -> bool {
        true
    }

    open spec fn not_spec(self) -> Scope {
        match self {
            Scope::Local => Scope::Global,
            Scope::Global => Scope::Local,
        }
    }
}

/// The shape of a variable reference.
#[derive(Clone, Copy, Debug, PartialEq, Eq, Hash, Structural)]
pub enum Type {
    Root,
    List,
    Member,
}

/// What a delegation command is about.
#[derive(Debug, PartialEq, Eq, Hash)]
pub enum Target {
    All,
    Variable(Identifier),
}

/// The content of a [`Target`].
pub enum TargetSyntax {
    All,
    Variable(Seq<char>),
}

impl View for Target {
    type V = TargetSyntax;

    open spec fn view(&self) -> TargetSyntax {
        match self {
            Target::All => TargetSyntax::All,
            Target::Variable(i) => TargetSyntax::Variable(i@),
        }
    }
}

/// A reference to a variable `x` or to a field `x.y`.
#[derive(Debug, PartialEq, Eq, Hash)]
pub enum Variable {
    Variable(Identifier),
    Member(Identifier, Box<Variable>),
}

/// The content of a [`Variable`].
pub enum VariableSyntax {
    Variable(Seq<char>),
    Member(Seq<char>, Box<VariableSyntax>),
}

/// The content of a variable reference.
pub open spec fn variable_syntax(v: Variable) -> VariableSyntax
    decreases v,
{
    match v {
        Variable::Variable(i) => VariableSyntax::Variable(i@),
        Variable::Member(i, rest) => VariableSyntax::Member(i@, Box::new(variable_syntax(*rest))),
    }
}

impl View for Variable {
    type V = VariableSyntax;

    open spec fn view(&self) -> VariableSyntax {
        variable_syntax(*self)
    }
}

/// A string literal or a variable reference.
#[derive(Debug, PartialEq, Eq, Hash)]
pub enum Value {
    Variable(Variable),
    String(String),
}

/// The content of a [`Value`].
pub enum ValueSyntax {
    Variable(VariableSyntax),
    String(Seq<char>),
}

impl View for Value {
    type V = ValueSyntax;

    open spec fn view(&self) -> ValueSyntax {
        match self {
            Value::Variable(v) => ValueSyntax::Variable(v@),
            Value::String(s) => ValueSyntax::String(s@),
        }
    }
}

/// An expression: a value, the empty list, or a record literal.
#[derive(Debug, PartialEq, Eq, Hash)]
pub enum Expr {
    Value(Value),
    EmptyList,
    FieldVals(Vec<Assignment>),
}

/// `variable = expr`, as a command or as one field of a record literal.
#[derive(Debug, PartialEq, Eq, Hash)]
pub struct Assignment {
    pub variable: Variable,
    pub expr: Expr,
}

/// The content of an [`Expr`].
pub enum ExprSyntax {
    Value(ValueSyntax),
    EmptyList,
    FieldVals(Seq<AssignmentSyntax>),
}

/// The content of an [`Assignment`].
pub struct AssignmentSyntax {
    pub variable: VariableSyntax,
    pub expr: ExprSyntax,
}

/// The content of an expression.
pub open spec fn expr_syntax(e: Expr) -> ExprSyntax
    decreases e,
{
    match e {
        Expr::Value(v) => ExprSyntax::Value(v@),
        Expr::EmptyList => ExprSyntax::EmptyList,
        Expr::FieldVals(fields) => ExprSyntax::FieldVals(
            Seq::new(
                fields@.len(),
                |i: int|
                    if 0 <= i < fields@.len() {
                        assignment_syntax(fields@[i])
                    } else {
                        AssignmentSyntax {
                            variable: VariableSyntax::Variable(Seq::empty()),
                            expr: ExprSyntax::EmptyList,
                        }
                    },
            ),
        ),
    }
}

/// The content of an assignment.
pub open spec fn assignment_syntax(a: Assignment) -> AssignmentSyntax
    decreases a,
{
    AssignmentSyntax { variable: a.variable@, expr: expr_syntax(a.expr) }
}

impl View for Expr {
    type V = ExprSyntax;

    open spec fn view(&self) -> ExprSyntax {
        expr_syntax(*self)
    }
}

impl View for Assignment {
    type V = AssignmentSyntax;

    open spec fn view(&self) -> AssignmentSyntax {
        assignment_syntax(*self)
    }
}

/// The contents of a list of assignments.
pub open spec fn assignments_syntax(fields: Seq<Assignment>) -> Seq<AssignmentSyntax> {
    Seq::new(fields.len(), |i: int| fields[i]@)
}

/// The content of a record literal is the list of its fields' contents.
pub proof fn lemma_fieldvals_syntax(fields: Vec<Assignment>)
    ensures
        Expr::FieldVals(fields)@ == ExprSyntax::FieldVals(assignments_syntax(fields@)),
{
    assert(Expr::FieldVals(fields)@->FieldVals_0 =~= assignments_syntax(fields@));
}

/// `append to variable with expr`.
#[derive(Debug, PartialEq, Eq, Hash)]
pub struct Append {
    pub variable: Variable,
    pub expr: Expr,
}

/// The content of an [`Append`].
pub struct AppendSyntax {
    pub variable: VariableSyntax,
    pub expr: ExprSyntax,
}

impl View for Append {
    type V = AppendSyntax;

    open spec fn view(&self) -> AppendSyntax {
        AppendSyntax { variable: self.variable@, expr: self.expr@ }
    }
}

/// `foreach value in list replacewith expr`.
#[derive(Debug, PartialEq, Eq, Hash)]
pub struct ForEach {
    pub value: Variable,
    pub list: Variable,
    pub expr: Expr,
}

/// The content of a [`ForEach`].
pub struct ForEachSyntax {
    pub value: VariableSyntax,
    pub list: VariableSyntax,
    pub expr: ExprSyntax,
}

impl View for ForEach {
    type V = ForEachSyntax;

    open spec fn view(&self) -> ForEachSyntax {
        ForEachSyntax { value: self.value@, list: self.list@, expr: self.expr@ }
    }
}

/// `target delegator right -> delegated`, to set or to delete.
#[derive(Debug, PartialEq, Eq, Hash)]
pub struct Delegation {
    pub target: Target,
    pub delegator: Principal,
    pub right: Right,
    pub delegated: Principal,
}

/// The content of a [`Delegation`].
pub struct DelegationSyntax {
    pub target: TargetSyntax,
    pub delegator: Seq<char>,
    pub right: Right,
    pub delegated: Seq<char>,
}

impl View for Delegation {
    type V = DelegationSyntax;

    open spec fn view(&self) -> DelegationSyntax {
        DelegationSyntax {
            target: self.target@,
            delegator: self.delegator@,
            right: self.right,
            delegated: self.delegated@,
        }
    }
}

/// `create principal p s`, the password as its digest.
#[derive(Debug, PartialEq, Eq, Hash)]
pub struct CreatePrincipal {
    pub principal: Principal,
    pub password: [u8; 32],
}

/// `change password p s`, the password as its digest.
#[derive(Debug, PartialEq, Eq, Hash)]
pub struct ChangePassword {
    pub principal: Principal,
    pub password: [u8; 32],
}

/// The content of a [`CreatePrincipal`] or a [`ChangePassword`].
pub struct PasswordSyntax {
    pub principal: Seq<char>,
    pub password: Seq<u8>,
}

impl View for CreatePrincipal {
    type V = PasswordSyntax;

    open spec fn view(&self) -> PasswordSyntax {
        PasswordSyntax { principal: self.principal@, password: self.password@ }
    }
}

impl View for ChangePassword {
    type V = PasswordSyntax;

    open spec fn view(&self) -> PasswordSyntax {
        PasswordSyntax { principal: self.principal@, password: self.password@ }
    }
}

/// A command that changes the state and reports one status.
#[derive(Debug, PartialEq, Eq, Hash)]
pub enum PrimitiveCommand {
    CreatePrincipal(CreatePrincipal),
    ChangePassword(ChangePassword),
    Assignment(Assignment),
    Append(Append),
    LocalAssignment(Assignment),
    ForEach(ForEach),
    SetDelegation(Delegation),
    DeleteDelegation(Delegation),
    DefaultDelegator(Principal),
}

/// The content of a [`PrimitiveCommand`].
pub enum PrimitiveSyntax {
    CreatePrincipal(PasswordSyntax),
    ChangePassword(PasswordSyntax),
    Assignment(AssignmentSyntax),
    Append(AppendSyntax),
    LocalAssignment(AssignmentSyntax),
    ForEach(ForEachSyntax),
    SetDelegation(DelegationSyntax),
    DeleteDelegation(DelegationSyntax),
    DefaultDelegator(Seq<char>),
}

impl View for PrimitiveCommand {
    type V = PrimitiveSyntax;

    open spec fn view(&self) -> PrimitiveSyntax {
        match self {
            PrimitiveCommand::CreatePrincipal(c) => PrimitiveSyntax::CreatePrincipal(c@),
            PrimitiveCommand::ChangePassword(c) => PrimitiveSyntax::ChangePassword(c@),
            PrimitiveCommand::Assignment(a) => PrimitiveSyntax::Assignment(a@),
            PrimitiveCommand::Append(a) => PrimitiveSyntax::Append(a@),
            PrimitiveCommand::LocalAssignment(a) => PrimitiveSyntax::LocalAssignment(a@),
            PrimitiveCommand::ForEach(f) => PrimitiveSyntax::ForEach(f@),
            PrimitiveCommand::SetDelegation(d) => PrimitiveSyntax::SetDelegation(d@),
            PrimitiveCommand::DeleteDelegation(d) => PrimitiveSyntax::DeleteDelegation(d@),
            PrimitiveCommand::DefaultDelegator(p) => PrimitiveSyntax::DefaultDelegator(p@),
        }
    }
}

/// The command that ends a program.
#[derive(Debug, PartialEq, Eq, Hash)]
pub enum TerminatorCommand {
    Exit,
    Return(Expr),
}

/// The content of a [`TerminatorCommand`].
pub enum TerminatorSyntax {
    Exit,
    Return(ExprSyntax),
}

impl View for TerminatorCommand {
    type V = TerminatorSyntax;

    open spec fn view(&self) -> TerminatorSyntax {
        match self {
            TerminatorCommand::Exit => TerminatorSyntax::Exit,
            TerminatorCommand::Return(e) => TerminatorSyntax::Return(e@),
        }
    }
}

/// A program: who runs it, the digest of the password given, the commands
/// and the terminator.
#[derive(Debug, PartialEq, Eq)]
pub struct Program {
    pub principal: Principal,
    pub password: [u8; 32],
    pub commands: Vec<PrimitiveCommand>,
    pub terminator: TerminatorCommand,
}

/// The content of a [`Program`].
pub struct ProgramSyntax {
    pub principal: Seq<char>,
    pub password: Seq<u8>,
    pub commands: Seq<PrimitiveSyntax>,
    pub terminator: TerminatorSyntax,
}

/// The contents of a list of commands.
pub open spec fn commands_syntax(commands: Seq<PrimitiveCommand>) -> Seq<PrimitiveSyntax> {
    Seq::new(commands.len(), |i: int| commands[i]@)
}

impl View for Program {
    type V = ProgramSyntax;

    open spec fn view(&self) -> ProgramSyntax {
        ProgramSyntax {
            principal: self.principal@,
            password: self.password@,
            commands: commands_syntax(self.commands@),
            terminator: self.terminator@,
        }
    }
}

/// Copies a variable reference.
pub fn clone_variable(v: &Variable) -> (res: Variable)
    ensures
        res@ == v@,
    decreases v,
{
    match v {
        Variable::Variable(i) => Variable::Variable(i.clone()),
        Variable::Member(i, rest) => {
            let inner = clone_variable(&**rest);
            Variable::Member(i.clone(), Box::new(inner))
        },
    }
}

impl Clone for Variable {
    fn clone(&self) -> (res: Variable)
        ensures
            res@ == self@,
    {
        clone_variable(self)
    }
}

impl Clone for Target {
    fn clone(&self) -> (res: Target)
        ensures
            res@ == self@,
    {
        match self {
            Target::All => Target::All,
            Target::Variable(i) => Target::Variable(i.clone()),
        }
    }
}

impl Clone for Value {
    fn clone(&self) -> (res: Value)
        ensures
            res@ == self@,
    {
        match self {
            Value::Variable(v) => Value::Variable(clone_variable(v)),
            Value::String(s) => Value::String(s.clone()),
        }
    }
}

/// Copies an expression.
pub fn clone_expr(e: &Expr) -> (res: Expr)
    ensures
        res@ == e@,
    decreases e,
{
    match e {
        Expr::Value(v) => Expr::Value(v.clone()),
        Expr::EmptyList => Expr::EmptyList,
        Expr::FieldVals(fields) => {
            let mut res: Vec<Assignment> = Vec::new();
            let mut i: usize = 0;
            while i < fields.len()
                invariant
                    i <= fields.len(),
                    res.len() == i,
                    forall|j: int| 0 <= j < i ==> res@[j]@ == fields@[j]@,
                    *e == Expr::FieldVals(*fields),
                decreases fields.len() - i,
            {
                assert(decreases_to!(*fields => fields[i as int]));
                assert(e->FieldVals_0 == *fields);
                res.push(clone_assignment(&fields[i]));
                i += 1;
            }
            proof {
                lemma_fieldvals_syntax(res);
                lemma_fieldvals_syntax(*fields);
                assert(assignments_syntax(res@) =~= assignments_syntax(fields@));
            }
            Expr::FieldVals(res)
        },
    }
}

/// Copies an assignment.
pub fn clone_assignment(a: &Assignment) -> (res: Assignment)
    ensures
        res@ == a@,
    decreases a,
{
    Assignment { variable: clone_variable(&a.variable), expr: clone_expr(&a.expr) }
}

impl Clone for Expr {
    fn clone(&self) -> (res: Expr)
        ensures
            res@ == self@,
    {
        clone_expr(self)
    }
}

impl Clone for Assignment {
    fn clone(&self) -> (res: Assignment)
        ensures
            res@ == self@,
    {
        clone_assignment(self)
    }
}

impl Clone for Append {
    fn clone(&self) -> (res: Append)
        ensures
            res@ == self@,
    {
        Append { variable: clone_variable(&self.variable), expr: clone_expr(&self.expr) }
    }
}

impl Clone for ForEach {
    fn clone(&self) -> (res: ForEach)
        ensures
            res@ == self@,
    {
        ForEach {
            value: clone_variable(&self.value),
            list: clone_variable(&self.list),
            expr: clone_expr(&self.expr),
        }
    }
}

impl Clone for Delegation {
    fn clone(&self) -> (res: Delegation)
        ensures
            res@ == self@,
    {
        Delegation {
            target: self.target.clone(),
            delegator: self.delegator.clone(),
            right: self.right,
            delegated: self.delegated.clone(),
        }
    }
}

impl Clone for CreatePrincipal {
    fn clone(&self) -> (res: CreatePrincipal)
        ensures
            res@ == self@,
    {
        CreatePrincipal { principal: self.principal.clone(), password: self.password }
    }
}

impl Clone for ChangePassword {
    fn clone(&self) -> (res: ChangePassword)
        ensures
            res@ == self@,
    {
        ChangePassword { principal: self.principal.clone(), password: self.password }
    }
}

impl Clone for PrimitiveCommand {
    fn clone(&self) -> (res: PrimitiveCommand)
        ensures
            res@ == self@,
    {
        match self {
            PrimitiveCommand::CreatePrincipal(c) => PrimitiveCommand::CreatePrincipal(c.clone()),
            PrimitiveCommand::ChangePassword(c) => PrimitiveCommand::ChangePassword(c.clone()),
            PrimitiveCommand::Assignment(a) => PrimitiveCommand::Assignment(clone_assignment(a)),
            PrimitiveCommand::Append(a) => PrimitiveCommand::Append(a.clone()),
            PrimitiveCommand::LocalAssignment(a) => PrimitiveCommand::LocalAssignment(
                clone_assignment(a),
            ),
            PrimitiveCommand::ForEach(f) => PrimitiveCommand::ForEach(f.clone()),
            PrimitiveCommand::SetDelegation(d) => PrimitiveCommand::SetDelegation(d.clone()),
            PrimitiveCommand::DeleteDelegation(d) => PrimitiveCommand::DeleteDelegation(d.clone()),
            PrimitiveCommand::DefaultDelegator(p) => PrimitiveCommand::DefaultDelegator(p.clone()),
        }
    }
}

impl Clone for TerminatorCommand {
    fn clone(&self) -> (res: TerminatorCommand)
        ensures
            res@ == self@,
    {
        match self {
            TerminatorCommand::Exit => TerminatorCommand::Exit,
            TerminatorCommand::Return(e) => TerminatorCommand::Return(clone_expr(e)),
        }
    }
}

impl Clone for Program {
    fn clone(&self) -> (res: Program)
        ensures
            res@ == self@,
    {
        let mut commands: Vec<PrimitiveCommand> = Vec::new();
        let mut i: usize = 0;
        while i < self.commands.len()
            invariant
                i <= self.commands.len(),
                commands.len() == i,
                forall|j: int| 0 <= j < i ==> commands@[j]@ == self.commands@[j]@,
            decreases self.commands.len() - i,
        {
            commands.push(self.commands[i].clone());
            i += 1;
        }
        assert(commands_syntax(commands@) =~= commands_syntax(self.commands@));
        Program {
            principal: self.principal.clone(),
            password: self.password,
            commands: commands,
            terminator: self.terminator.clone(),
        }
    }
}

} // verus!
