//! The syntax tree of a SHAL program and its two validated identifier types.

use crate::shal::common::{Edge, IsWas, Value};
use std::convert::TryFrom;
use vstd::prelude::*;
use vstd::std_specs::cmp::PartialEqSpecImpl;
use vstd::std_specs::convert::TryFromSpecImpl;
use vstd::string::{StrSliceExecFns, StringExecFns};

verus! {

broadcast use {vstd::std_specs::vec::group_vec_axioms, vstd::seq::group_seq_axioms};

/// A position in the source text: line and column, both counted from 1.
#[derive(Copy, Clone, Debug, PartialEq, Eq, Structural)]
pub struct SourceLoc(pub usize, pub usize);

/// An ASCII letter.
pub open spec fn is_ascii_letter(c: char) -> bool {
    ('a' <= c && c <= 'z') || ('A' <= c && c <= 'Z')
}

/// An ASCII decimal digit.
pub open spec fn is_ascii_digit(c: char) -> bool {
    '0' <= c && c <= '9'
}

/// A character that may follow the first one of an identifier.
pub open spec fn is_identifier_char(c: char) -> bool {
    is_ascii_letter(c) || is_ascii_digit(c) || c == '_'
}

/// The shape of an entity identifier: an ASCII letter followed by any number
/// of ASCII letters, digits and underscores.
pub open spec fn is_entity_id(s: Seq<char>) -> bool {
    &&& s.len() > 0
    &&& is_ascii_letter(s[0])
    &&& forall|i: int| 0 <= i < s.len() ==> is_identifier_char(#[trigger] s[i])
}

/// The largest number of pins that the controller has of each kind.
pub const PIN_COUNT: u8 = 32;

/// The name of a declared input or output.
#[derive(Debug, Hash)]
pub struct EntityID {
    id: String,
}

/// The string that was refused as an entity identifier.
#[derive(Clone, Debug, PartialEq, Eq)]
pub struct InvalidEntityIDError {
    pub id: String,
}

impl View for EntityID {
    type V = Seq<char>;

    closed spec fn view(&self) -> Seq<char> {
        self.id@
    }
}

impl EntityID {
    #[verifier::type_invariant]
    pub closed spec fn wf(self) -> bool {
        is_entity_id(self.id@)
    }

    /// A well-formed identifier has the shape of an entity identifier.
    pub broadcast proof fn lemma_wf(self)
        ensures
            #[trigger] self.wf() <==> is_entity_id(self@),
    {
    }

    /// The identifier as text.
    pub fn as_str(&self) -> (s: &str)
        ensures
            s@ == self@,
            is_entity_id(self@),
            self.wf(),
    {
        proof {
            use_type_invariant(self);
        }
        self.id.as_str()
    }
}

impl InvalidEntityIDError {
    /// The message of the error.
    pub open spec fn message(self) -> Seq<char> {
        "Invalid entity ID: "@ + self.id@
    }

    /// The message of the error.
    pub fn to_string(&self) -> (text: String)
        ensures
            text@ == self.message(),
    {
        let mut text = String::from_str("Invalid entity ID: ");
        text.append(self.id.as_str());
        text
    }
}

/// Tells whether a text has the shape of an entity identifier.
pub fn check_entity_id(s: &str) -> (b: bool)
    ensures
        b == is_entity_id(s@),
{
    if !s.is_ascii() {
        return false;
    }
    let n = s.unicode_len();
    if n == 0 {
        return false;
    }
    let first = s.get_ascii(0);
    if !((first >= 97 && first <= 122) || (first >= 65 && first <= 90)) {
        return false;
    }
    let mut i: usize = 1;
    while i < n
        invariant
            1 <= i <= n,
            n == s@.len(),
            s.is_ascii(),
            forall|j: int| 0 <= j < i ==> is_identifier_char(#[trigger] s@[j]),
        decreases n - i,
    {
        let b = s.get_ascii(i);
        let ok = (b >= 97 && b <= 122) || (b >= 65 && b <= 90) || (b >= 48 && b <= 57) || b == 95;
        if !ok {
            assert(!is_identifier_char(s@[i as int]));
            return false;
        }
        i += 1;
    }
    true
}

impl TryFrom<String> for EntityID {
    type Error = InvalidEntityIDError;

    /// Accepts exactly the texts that have the shape of an entity identifier;
    /// a refused text is handed back in the error.
    fn try_from(value: String) -> (r: Result<Self, InvalidEntityIDError>)
        ensures
            r is Ok <==> is_entity_id(value@),
            r matches Ok(id) ==> id@ == value@ && id.wf(),
            r matches Err(e) ==> e.id == value,
    {
        if check_entity_id(value.as_str()) {
            Ok(EntityID { id: value })
        } else {
            Err(InvalidEntityIDError { id: value })
        }
    }
}

impl TryFromSpecImpl<String> for EntityID {
    open spec fn obeys_try_from_spec() -> bool {
        true
    }

    closed spec fn try_from_spec(value: String) -> Result<Self, InvalidEntityIDError> {
        if is_entity_id(value@) {
            Ok(EntityID { id: value })
        } else {
            Err(InvalidEntityIDError { id: value })
        }
    }
}

impl<'a> TryFrom<&'a str> for EntityID {
    type Error = InvalidEntityIDError;

    /// As for an owned text.
    fn try_from(value: &'a str) -> (r: Result<Self, InvalidEntityIDError>)
        ensures
            r is Ok <==> is_entity_id(value@),
            r matches Ok(id) ==> id@ == value@ && id.wf(),
            r matches Err(e) ==> e.id@ == value@,
    {
        let owned = value.to_owned();
        if check_entity_id(value) {
            Ok(EntityID { id: owned })
        } else {
            Err(InvalidEntityIDError { id: owned })
        }
    }
}

impl<'a> TryFromSpecImpl<&'a str> for EntityID {
    open spec fn obeys_try_from_spec() -> bool {
        false
    }

    closed spec fn try_from_spec(value: &'a str) -> Result<Self, InvalidEntityIDError> {
        arbitrary()
    }
}

impl Clone for EntityID {
    fn clone(&self) -> (r: Self)
        ensures
            r@ == self@,
            r.wf(),
    {
        proof {
            use_type_invariant(self);
        }
        EntityID { id: self.id.clone() }
    }
}

impl PartialEq for EntityID {
    fn eq(&self, other: &Self) -> (r: bool) {
        self.id == other.id
    }
}

impl Eq for EntityID {
}

impl PartialEqSpecImpl for EntityID {
    open spec fn obeys_eq_spec() -> bool {
        true
    }

    open spec fn eq_spec(&self, other: &Self) -> bool {
        self@ == other@
    }
}

/// The number of a pin: less than `PIN_COUNT`.
#[derive(Copy, Clone, Debug, PartialEq, Eq, Structural, Hash)]
pub struct PinID {
    id: u8,
}

/// The number that was refused as a pin.
#[derive(Copy, Clone, Debug, PartialEq, Eq, Structural)]
pub struct InvalidPinIDError {
    pub id: u8,
}

impl InvalidPinIDError {
    /// The message of the error.
    pub open spec fn message(self) -> Seq<char> {
        "Invalid pin ID: "@ + crate::text::decimal(self.id as nat)
            + ", ids must be in range [0, 32)"@
    }

    /// The message of the error.
    pub fn to_string(&self) -> (text: String)
        ensures
            text@ == self.message(),
    {
        let mut text = String::from_str("Invalid pin ID: ");
        crate::text::push_decimal(&mut text, self.id as u64);
        text.append(", ids must be in range [0, 32)");
        text
    }
}

impl View for PinID {
    type V = u8;

    closed spec fn view(&self) -> u8 {
        self.id
    }
}

impl PinID {
    #[verifier::type_invariant]
    pub closed spec fn wf(self) -> bool {
        self.id < PIN_COUNT
    }

    /// A well-formed pin is less than `PIN_COUNT`.
    pub broadcast proof fn lemma_wf(self)
        ensures
            #[trigger] self.wf() <==> self@ < PIN_COUNT,
    {
    }

    /// Two pins with the same number are the same pin.
    pub broadcast proof fn lemma_view_injective(self, other: PinID)
        ensures
            #[trigger] self@ == #[trigger] other@ <==> self == other,
    {
    }

    /// The pin with a given number, in specifications.
    pub closed spec fn of(id: u8) -> PinID {
        PinID { id }
    }

    /// `of` is the inverse of the view.
    pub broadcast proof fn lemma_of(id: u8)
        ensures
            (#[trigger] PinID::of(id))@ == id,
    {
    }

    /// The pin itself, known to be one of the controller's.
    pub fn checked(self) -> (r: PinID)
        ensures
            r == self,
            r.wf(),
    {
        proof {
            use_type_invariant(&self);
        }
        self
    }

    /// The pin's number as text.
    pub fn to_string(&self) -> (text: String)
        ensures
            text@ == crate::text::decimal(self@ as nat),
    {
        let mut text = String::new();
        crate::text::push_decimal(&mut text, self.id as u64);
        assert(text@ =~= crate::text::decimal(self@ as nat));
        text
    }

    /// The pin's number.
    pub fn get(&self) -> (r: u8)
        ensures
            r == self@,
            r < PIN_COUNT,
            self.wf(),
    {
        proof {
            use_type_invariant(self);
        }
        self.id
    }
}

impl TryFrom<u8> for PinID {
    type Error = InvalidPinIDError;

    /// Accepts exactly the numbers below `PIN_COUNT`; a refused number is
    /// handed back in the error.
    fn try_from(value: u8) -> (r: Result<Self, InvalidPinIDError>)
        ensures
            r is Ok <==> value < PIN_COUNT,
            r matches Ok(pin) ==> pin@ == value && pin.wf(),
            r matches Err(e) ==> e.id == value,
    {
        if value < PIN_COUNT {
            Ok(PinID { id: value })
        } else {
            Err(InvalidPinIDError { id: value })
        }
    }
}

impl TryFromSpecImpl<u8> for PinID {
    open spec fn obeys_try_from_spec() -> bool {
        true
    }

    closed spec fn try_from_spec(value: u8) -> Result<Self, InvalidPinIDError> {
        if value < PIN_COUNT {
            Ok(PinID { id: value })
        } else {
            Err(InvalidPinIDError { id: value })
        }
    }
}

/// What is declared of one input or output: its pin and a display name.
#[derive(Debug, PartialEq, Eq)]
pub struct IODeclaration {
    pub pin: PinID,
    pub name: Option<String>,
}

impl Clone for IODeclaration {
    fn clone(&self) -> (r: Self)
        ensures
            r == *self,
    {
        let name = match &self.name {
            Some(s) => Some(s.clone()),
            None => None,
        };
        IODeclaration { pin: self.pin, name }
    }
}

/// The entries of a declaration map as specifications see them: the
/// identifier's characters with the declaration, in the order of insertion.
pub type Entries = Seq<(Seq<char>, IODeclaration)>;

/// No identifier occurs twice among the entries.
pub open spec fn distinct_keys(entries: Entries) -> bool {
    forall|i: int, j: int|
        0 <= i < j < entries.len() ==> (#[trigger] entries[i]).0 != (#[trigger] entries[j]).0
}

/// Some entry has the identifier `name`.
pub open spec fn has_key(entries: Entries, name: Seq<char>) -> bool {
    exists|i: int| 0 <= i < entries.len() && (#[trigger] entries[i]).0 == name
}

/// The declaration entered under `name`, if there is one.
pub open spec fn find_entry(entries: Entries, name: Seq<char>) -> Option<IODeclaration> {
    if has_key(entries, name) {
        let i = choose|i: int| 0 <= i < entries.len() && (#[trigger] entries[i]).0 == name;
        Some(entries[i].1)
    } else {
        None
    }
}

/// The pins of the entries, in order.
pub open spec fn entry_pins(entries: Entries) -> Seq<PinID> {
    Seq::new(entries.len(), |i: int| entries[i].1.pin)
}

/// The identifiers of the entries, in order.
pub open spec fn entry_keys(entries: Entries) -> Seq<Seq<char>> {
    Seq::new(entries.len(), |i: int| entries[i].0)
}

/// A map from entity identifiers to declarations in which no identifier
/// occurs twice. It keeps its entries in the order of insertion.
#[derive(Debug, PartialEq, Eq)]
pub struct DeclarationMap {
    entries: Vec<(EntityID, IODeclaration)>,
}

impl View for DeclarationMap {
    type V = Entries;

    closed spec fn view(&self) -> Entries {
        entries_view(self.entries@)
    }
}

/// The entries of a list of declarations as specifications see them.
pub open spec fn entries_view(entries: Seq<(EntityID, IODeclaration)>) -> Entries {
    Seq::new(entries.len(), |i: int| (entries[i].0@, entries[i].1))
}

impl DeclarationMap {
    #[verifier::type_invariant]
    pub closed spec fn wf(self) -> bool {
        distinct_keys(self@)
    }

    /// A well-formed map holds no identifier twice.
    pub broadcast proof fn lemma_wf(self)
        ensures
            #[trigger] self.wf() <==> distinct_keys(self@),
    {
    }

    /// The empty map.
    pub fn new() -> (r: Self)
        ensures
            r@.len() == 0,
            r.wf(),
    {
        DeclarationMap { entries: Vec::new() }
    }

    /// The number of entries.
    pub fn len(&self) -> (n: usize)
        ensures
            n == self@.len(),
    {
        self.entries.len()
    }

    /// Tells whether the map has no entry.
    pub fn is_empty(&self) -> (b: bool)
        ensures
            b == (self@.len() == 0),
    {
        self.entries.len() == 0
    }

    /// The entries in the order of insertion.
    pub fn entries(&self) -> (r: &Vec<(EntityID, IODeclaration)>)
        ensures
            r@.len() == self@.len(),
            forall|i: int| 0 <= i < r@.len() ==> (#[trigger] r@[i]).0@ == self@[i].0 && r@[i].1 == self@[i].1,
            distinct_keys(self@),
            self.wf(),
    {
        proof {
            use_type_invariant(self);
        }
        &self.entries
    }

    /// The declaration entered under `id`, if there is one.
    pub fn get(&self, id: &EntityID) -> (r: Option<&IODeclaration>)
        ensures
            r == match find_entry(self@, id@) {
                Some(d) => Some(&d),
                None => None,
            },
            distinct_keys(self@),
    {
        proof {
            use_type_invariant(self);
        }
        let n = self.entries.len();
        let mut i: usize = 0;
        while i < n
            invariant
                i <= n,
                n == self.entries@.len(),
                distinct_keys(self@),
                forall|j: int| 0 <= j < i ==> (#[trigger] self@[j]).0 != id@,
            decreases n - i,
        {
            if self.entries[i].0 == *id {
                proof {
                    assert(self@[i as int].0 == id@);
                    let k = choose|k: int| 0 <= k < self@.len() && (#[trigger] self@[k]).0 == id@;
                    assert(k == i);
                }
                return Some(&self.entries[i].1);
            }
            i += 1;
        }
        None
    }

    /// Tells whether some entry has the identifier `id`.
    pub fn contains_key(&self, id: &EntityID) -> (b: bool)
        ensures
            b == has_key(self@, id@),
    {
        self.get(id).is_some()
    }

    /// Enters `declaration` under `id` unless the identifier is taken; tells
    /// whether it was entered. A taken identifier leaves the map as it was.
    pub fn insert(&mut self, id: EntityID, declaration: IODeclaration) -> (inserted: bool)
        ensures
            inserted == !has_key(old(self)@, id@),
            inserted ==> final(self)@ == old(self)@.push((id@, declaration)),
            !inserted ==> final(self)@ == old(self)@,
            final(self).wf(),
    {
        proof {
            use_type_invariant(&*self);
        }
        if self.contains_key(&id) {
            return false;
        }
        let ghost before = self@;
        let mut taken = DeclarationMap { entries: Vec::new() };
        std::mem::swap(self, &mut taken);
        let mut entries = taken.entries;
        entries.push((id, declaration));
        proof {
            let after = entries_view(entries@);
            assert(after =~= before.push((id@, declaration)));
            assert forall|i: int, j: int| 0 <= i < j < after.len() implies (#[trigger] after[i]).0 != (
            #[trigger] after[j]).0 by {
                if j < before.len() {
                    assert(before[i].0 != before[j].0);
                } else {
                    assert(before[i].0 != id@);
                }
            }
        }
        *self = DeclarationMap { entries };
        true
    }
}

impl Clone for DeclarationMap {
    fn clone(&self) -> (r: Self)
        ensures
            r@ == self@,
    {
        proof {
            use_type_invariant(self);
        }
        let n = self.entries.len();
        let mut entries: Vec<(EntityID, IODeclaration)> = Vec::new();
        let mut i: usize = 0;
        while i < n
            invariant
                i <= n,
                n == self.entries@.len(),
                entries@.len() == i,
                forall|j: int|
                    0 <= j < i ==> (#[trigger] entries@[j]).0@ == self.entries@[j].0@ && entries@[j].1
                        == self.entries@[j].1,
            decreases n - i,
        {
            entries.push((self.entries[i].0.clone(), self.entries[i].1.clone()));
            i += 1;
        }
        proof {
            assert(entries_view(entries@) =~= self@);
        }
        DeclarationMap { entries }
    }
}

impl Default for DeclarationMap {
    fn default() -> (r: Self)
        ensures
            r@.len() == 0,
    {
        DeclarationMap::new()
    }
}

/// The declared inputs and outputs of a program.
#[derive(Clone, Debug, PartialEq, Eq)]
pub struct IODeclarations {
    pub inputs: DeclarationMap,
    pub outputs: DeclarationMap,
}

impl Default for IODeclarations {
    fn default() -> (r: Self)
        ensures
            r.inputs@.len() == 0,
            r.outputs@.len() == 0,
    {
        IODeclarations { inputs: DeclarationMap::new(), outputs: DeclarationMap::new() }
    }
}

/// The two kinds of declaration.
#[derive(Copy, Clone, Debug, PartialEq, Eq, Structural)]
pub enum DeclarationType {
    Input,
    Output,
}

/// A reference to an input: by pin or by name.
#[derive(Clone, Debug, PartialEq, Eq)]
pub enum Input {
    Number(PinID),
    Entity(EntityID),
}

/// A reference to an output: by pin or by name.
#[derive(Clone, Debug, PartialEq, Eq)]
pub enum Output {
    Number(PinID),
    Entity(EntityID),
}

/// What a rule does to an output.
#[derive(Clone, Debug, PartialEq, Eq)]
pub enum Action {
    Toggle(Output),
    SetOutput(Output, Value),
}

/// A boolean condition over the sampled pins.
#[derive(Debug, PartialEq, Eq)]
pub enum Condition {
    And(Box<Condition>, Box<Condition>),
    Or(Box<Condition>, Box<Condition>),
    Xor(Box<Condition>, Box<Condition>),
    Not(Box<Condition>),
    Input(Input, IsWas, Value),
    Output(Output, IsWas, Value),
    Entity(EntityID, IsWas, Value),
}

/// A statement of the rule language.
#[derive(Debug, PartialEq, Eq)]
pub enum Statement {
    Action(Action),
    IfElse(Condition, Vec<Statement>, Vec<Statement>),
    Event { edge: Edge, input: Input, statements: Vec<Statement> },
}

/// A parsed program: its declarations and its statements in source order.
#[derive(Debug, PartialEq, Eq)]
pub struct Program {
    pub declarations: IODeclarations,
    pub statements: Vec<Statement>,
}

impl Default for Program {
    fn default() -> (r: Self)
        ensures
            r.declarations.inputs@.len() == 0,
            r.declarations.outputs@.len() == 0,
            r.statements@.len() == 0,
    {
        Program { declarations: IODeclarations::default(), statements: Vec::new() }
    }
}

/// A copy of a condition.
fn copy_condition(condition: &Condition) -> (r: Condition)
    ensures
        condition_view(r) == condition_view(*condition),
    decreases condition,
{
    match condition {
        Condition::And(left, right) => Condition::And(
            Box::new(copy_condition(left)),
            Box::new(copy_condition(right)),
        ),
        Condition::Or(left, right) => Condition::Or(
            Box::new(copy_condition(left)),
            Box::new(copy_condition(right)),
        ),
        Condition::Xor(left, right) => Condition::Xor(
            Box::new(copy_condition(left)),
            Box::new(copy_condition(right)),
        ),
        Condition::Not(operand) => Condition::Not(Box::new(copy_condition(operand))),
        Condition::Input(input, is_was, value) => Condition::Input(
            copy_input(input),
            *is_was,
            *value,
        ),
        Condition::Output(output, is_was, value) => Condition::Output(
            copy_output(output),
            *is_was,
            *value,
        ),
        Condition::Entity(entity, is_was, value) => Condition::Entity(
            entity.clone(),
            *is_was,
            *value,
        ),
    }
}

/// A copy of a reference to an input.
fn copy_input(input: &Input) -> (r: Input)
    ensures
        r@ == input@,
{
    match input {
        Input::Number(pin) => Input::Number(*pin),
        Input::Entity(id) => Input::Entity(id.clone()),
    }
}

/// A copy of a reference to an output.
fn copy_output(output: &Output) -> (r: Output)
    ensures
        r@ == output@,
{
    match output {
        Output::Number(pin) => Output::Number(*pin),
        Output::Entity(id) => Output::Entity(id.clone()),
    }
}

/// A copy of a statement.
fn copy_statement(statement: &Statement) -> (r: Statement)
    ensures
        statement_view(r) == statement_view(*statement),
    decreases statement, 0int,
{
    match statement {
        Statement::Action(Action::Toggle(output)) => Statement::Action(
            Action::Toggle(copy_output(output)),
        ),
        Statement::Action(Action::SetOutput(output, value)) => Statement::Action(
            Action::SetOutput(copy_output(output), *value),
        ),
        Statement::IfElse(condition, if_block, else_block) => Statement::IfElse(
            copy_condition(condition),
            copy_block(if_block),
            copy_block(else_block),
        ),
        Statement::Event { edge, input, statements } => Statement::Event {
            edge: *edge,
            input: copy_input(input),
            statements: copy_block(statements),
        },
    }
}

/// A copy of a list of statements.
fn copy_block(statements: &Vec<Statement>) -> (r: Vec<Statement>)
    ensures
        block_view(r@) == block_view(statements@),
    decreases statements, 1int,
{
    let n = statements.len();
    let mut copy: Vec<Statement> = Vec::new();
    let mut i: usize = 0;
    assert(statements@.take(0) =~= copy@);
    while i < n
        invariant
            i <= n,
            n == statements@.len(),
            block_view(copy@) == block_view(statements@.take(i as int)),
        decreases n - i,
    {
        let ghost before = copy@;
        let ghost part = statements@.take(i as int + 1);
        proof {
            assert(part.drop_last() =~= statements@.take(i as int));
            assert(part.last() == statements@[i as int]);
        }
        copy.push(copy_statement(&statements[i]));
        assert(copy@.drop_last() =~= before);
        i += 1;
    }
    assert(statements@.take(n as int) =~= statements@);
    copy
}

impl Clone for Condition {
    fn clone(&self) -> (r: Self)
        ensures
            condition_view(r) == condition_view(*self),
    {
        copy_condition(self)
    }
}

impl Clone for Statement {
    fn clone(&self) -> (r: Self)
        ensures
            statement_view(r) == statement_view(*self),
    {
        copy_statement(self)
    }
}

impl Clone for Program {
    fn clone(&self) -> (r: Self)
        ensures
            r.declarations.inputs@ == self.declarations.inputs@,
            r.declarations.outputs@ == self.declarations.outputs@,
            block_view(r.statements@) == block_view(self.statements@),
    {
        Program {
            declarations: IODeclarations {
                inputs: self.declarations.inputs.clone(),
                outputs: self.declarations.outputs.clone(),
            },
            statements: copy_block(&self.statements),
        }
    }
}

/// A reference to a pin as specifications see it: by number, or by the
/// characters of a name.
pub enum PinRef {
    Number(PinID),
    Entity(Seq<char>),
}

/// A condition as specifications see it.
pub enum ConditionView {
    And(Box<ConditionView>, Box<ConditionView>),
    Or(Box<ConditionView>, Box<ConditionView>),
    Xor(Box<ConditionView>, Box<ConditionView>),
    Not(Box<ConditionView>),
    Input(PinRef, IsWas, Value),
    Output(PinRef, IsWas, Value),
    Entity(Seq<char>, IsWas, Value),
}

/// A statement as specifications see it.
pub enum StatementView {
    Toggle(PinRef),
    SetOutput(PinRef, Value),
    IfElse(ConditionView, Seq<StatementView>, Seq<StatementView>),
    Event(Edge, PinRef, Seq<StatementView>),
}

impl View for Input {
    type V = PinRef;

    open spec fn view(&self) -> PinRef {
        match self {
            Input::Number(pin) => PinRef::Number(*pin),
            Input::Entity(id) => PinRef::Entity(id@),
        }
    }
}

impl View for Output {
    type V = PinRef;

    open spec fn view(&self) -> PinRef {
        match self {
            Output::Number(pin) => PinRef::Number(*pin),
            Output::Entity(id) => PinRef::Entity(id@),
        }
    }
}

/// A condition as specifications see it.
pub open spec fn condition_view(condition: Condition) -> ConditionView
    decreases condition,
{
    match condition {
        Condition::And(left, right) => ConditionView::And(
            Box::new(condition_view(*left)),
            Box::new(condition_view(*right)),
        ),
        Condition::Or(left, right) => ConditionView::Or(
            Box::new(condition_view(*left)),
            Box::new(condition_view(*right)),
        ),
        Condition::Xor(left, right) => ConditionView::Xor(
            Box::new(condition_view(*left)),
            Box::new(condition_view(*right)),
        ),
        Condition::Not(operand) => ConditionView::Not(Box::new(condition_view(*operand))),
        Condition::Input(input, is_was, value) => ConditionView::Input(input@, is_was, value),
        Condition::Output(output, is_was, value) => ConditionView::Output(output@, is_was, value),
        Condition::Entity(entity, is_was, value) => ConditionView::Entity(entity@, is_was, value),
    }
}

/// A statement as specifications see it.
pub open spec fn statement_view(statement: Statement) -> StatementView
    decreases statement,
{
    match statement {
        Statement::Action(Action::Toggle(output)) => StatementView::Toggle(output@),
        Statement::Action(Action::SetOutput(output, value)) => StatementView::SetOutput(
            output@,
            value,
        ),
        Statement::IfElse(condition, if_block, else_block) => StatementView::IfElse(
            condition_view(condition),
            block_view(if_block@),
            block_view(else_block@),
        ),
        Statement::Event { edge, input, statements } => StatementView::Event(
            edge,
            input@,
            block_view(statements@),
        ),
    }
}

/// A list of statements as specifications see it.
pub open spec fn block_view(statements: Seq<Statement>) -> Seq<StatementView>
    decreases statements,
{
    if statements.len() == 0 {
        Seq::empty()
    } else {
        block_view(statements.drop_last()).push(statement_view(statements.last()))
    }
}

} // verus!
