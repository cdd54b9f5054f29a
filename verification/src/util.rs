//! Values, operators, and the scope in which names are bound.

use vstd::prelude::*;
use vstd::string::StringExecFns;

verus! {

/// What a value is.
pub enum ObjectView {
    Int(i32),
    /// A 32-bit float, by its bits.
    Float(u32),
    Bool(bool),
    Array(Seq<ObjectView>),
    Char(char),
    Undefined,
}

/// A value of the language. A float is held by the bits of its IEEE 754
/// binary32 form; arithmetic on floats is done by the float unit that the
/// host hands to the functions that need one.
#[derive(Debug)]
pub enum RickrollObject {
    Int(i32),
    Float(u32),
    Bool(bool),
    Array(Vec<RickrollObject>),
    Char(char),
    Undefined,
}

/// What a value is: integers, flags and characters as they are, an array
/// as the sequence of what its items are.
pub open spec fn object_view(o: RickrollObject) -> ObjectView
    decreases o, 0nat,
{
    match o {
        RickrollObject::Int(x) => ObjectView::Int(x),
        RickrollObject::Float(x) => ObjectView::Float(x),
        RickrollObject::Bool(x) => ObjectView::Bool(x),
        RickrollObject::Char(x) => ObjectView::Char(x),
        RickrollObject::Undefined => ObjectView::Undefined,
        RickrollObject::Array(items) => ObjectView::Array(items_view(items, items.len() as nat)),
    }
}

/// What the first `n` items of a list of values are.
pub open spec fn items_view(items: Vec<RickrollObject>, n: nat) -> Seq<ObjectView>
    decreases items, n,
{
    if n == 0 || n > items.len() {
        Seq::empty()
    } else {
        items_view(items, (n - 1) as nat).push(object_view(items[n - 1]))
    }
}

impl View for RickrollObject {
    type V = ObjectView;

    open spec fn view(&self) -> ObjectView {
        object_view(*self)
    }
}

/// The views of a sequence of values.
pub open spec fn objects_view(items: Seq<RickrollObject>) -> Seq<ObjectView> {
    Seq::new(items.len(), |i: int| items[i]@)
}

proof fn lemma_items_view(items: Vec<RickrollObject>, n: nat)
    requires
        n <= items.len(),
    ensures
        items_view(items, n) == objects_view(items@.subrange(0, n as int)),
    decreases n,
{
    if n > 0 {
        lemma_items_view(items, (n - 1) as nat);
    }
    assert(items_view(items, n) =~= objects_view(items@.subrange(0, n as int)));
}

/// The view of an array is the array of the views of its items.
pub proof fn lemma_array_view(items: Vec<RickrollObject>)
    ensures
        RickrollObject::Array(items)@ == ObjectView::Array(objects_view(items@)),
{
    lemma_items_view(items, items.len() as nat);
    assert(items@.subrange(0, items.len() as int) =~= items@);
}

/// What each form of value is.
pub broadcast proof fn lemma_object_view(o: RickrollObject)
    ensures
        #[trigger] o.view() == match o {
            RickrollObject::Int(x) => ObjectView::Int(x),
            RickrollObject::Float(x) => ObjectView::Float(x),
            RickrollObject::Bool(x) => ObjectView::Bool(x),
            RickrollObject::Char(x) => ObjectView::Char(x),
            RickrollObject::Undefined => ObjectView::Undefined,
            RickrollObject::Array(items) => ObjectView::Array(objects_view(items@)),
        },
{
    match o {
        RickrollObject::Array(items) => {
            lemma_array_view(items);
        },
        _ => {},
    }
}

impl Clone for RickrollObject {
    /// Values are copied, never shared.
    #[verifier::loop_isolation(false)]
    fn clone(&self) -> (r: Self)
        ensures
            r@ == self@,
        decreases self,
    {
        match self {
            RickrollObject::Int(x) => RickrollObject::Int(*x),
            RickrollObject::Float(x) => RickrollObject::Float(*x),
            RickrollObject::Bool(x) => RickrollObject::Bool(*x),
            RickrollObject::Char(x) => RickrollObject::Char(*x),
            RickrollObject::Undefined => RickrollObject::Undefined,
            RickrollObject::Array(items) => {
                let mut out: Vec<RickrollObject> = Vec::new();
                let mut i: usize = 0;
                while i < items.len()
                    invariant
                        i <= items.len(),
                        out.len() == i,
                        forall|j: int| 0 <= j < i ==> out[j]@ == items[j]@,
                    decreases items.len() - i,
                {
                    let item = items[i].clone();
                    out.push(item);
                    i += 1;
                }
                proof {
                    lemma_array_view(out);
                    lemma_array_view(*items);
                    assert(objects_view(out@) =~= objects_view(items@));
                }
                RickrollObject::Array(out)
            },
        }
    }
}

/// Copies a list of values.
pub fn clone_objects(items: &Vec<RickrollObject>) -> (r: Vec<RickrollObject>)
    ensures
        objects_view(r@) == objects_view(items@),
{
    let mut out: Vec<RickrollObject> = Vec::new();
    let mut i: usize = 0;
    while i < items.len()
        invariant
            i <= items.len(),
            out.len() == i,
            forall|j: int| 0 <= j < i ==> out[j]@ == items[j]@,
        decreases items.len() - i,
    {
        out.push(items[i].clone());
        i += 1;
    }
    assert(objects_view(out@) =~= objects_view(items@));
    out
}

/// The operators of expressions, and the two parentheses.
#[derive(Debug, Clone, Copy, PartialEq, Eq, Structural)]
pub enum Operator {
    ArrayAccess,
    Add,
    Subtract,
    Multiply,
    Divide,
    Modulo,
    UnaryMinus,
    And,
    Or,
    Not,
    Greater,
    Less,
    GreaterEquals,
    LessEquals,
    Equals,
    NotEquals,
    LParen,
    RParen,
}

impl Operator {
    /// An operator with one operand.
    pub open spec fn unary(self) -> bool {
        self == Operator::UnaryMinus || self == Operator::Not
    }

    /// One of the two parentheses.
    pub open spec fn paren(self) -> bool {
        self == Operator::LParen || self == Operator::RParen
    }

    /// The name of the operator, as error messages show it.
    pub open spec fn name(self) -> Seq<char> {
        match self {
            Operator::ArrayAccess => "ArrayAccess"@,
            Operator::Add => "Add"@,
            Operator::Subtract => "Subtract"@,
            Operator::Multiply => "Multiply"@,
            Operator::Divide => "Divide"@,
            Operator::Modulo => "Modulo"@,
            Operator::UnaryMinus => "UnaryMinus"@,
            Operator::And => "And"@,
            Operator::Or => "Or"@,
            Operator::Not => "Not"@,
            Operator::Greater => "Greater"@,
            Operator::Less => "Less"@,
            Operator::GreaterEquals => "GreaterEquals"@,
            Operator::LessEquals => "LessEquals"@,
            Operator::Equals => "Equals"@,
            Operator::NotEquals => "NotEquals"@,
            Operator::LParen => "LParen"@,
            Operator::RParen => "RParen"@,
        }
    }

    // checks if operator is unary
    pub fn is_unary(&self) -> (r: bool)
        ensures
            r == self.unary(),
    {
        match self {
            Operator::UnaryMinus | Operator::Not => true,
            _ => false,
        }
    }

    pub fn is_paren(&self) -> (r: bool)
        ensures
            r == self.paren(),
    {
        match self {
            Operator::LParen | Operator::RParen => true,
            _ => false,
        }
    }

    pub fn as_string(&self) -> (r: String)
        ensures
            r@ == self.name(),
    {
        let name = match self {
            Operator::ArrayAccess => "ArrayAccess",
            Operator::Add => "Add",
            Operator::Subtract => "Subtract",
            Operator::Multiply => "Multiply",
            Operator::Divide => "Divide",
            Operator::Modulo => "Modulo",
            Operator::UnaryMinus => "UnaryMinus",
            Operator::And => "And",
            Operator::Or => "Or",
            Operator::Not => "Not",
            Operator::Greater => "Greater",
            Operator::Less => "Less",
            Operator::GreaterEquals => "GreaterEquals",
            Operator::LessEquals => "LessEquals",
            Operator::Equals => "Equals",
            Operator::NotEquals => "NotEquals",
            Operator::LParen => "LParen",
            Operator::RParen => "RParen",
        };
        String::from_str(name)
    }
}

/// The value of a language constant, if the word is one.
pub open spec fn constant_spec(word: Seq<char>) -> Option<ObjectView> {
    if word == "TRUE"@ {
        Some(ObjectView::Bool(true))
    } else if word == "FALSE"@ {
        Some(ObjectView::Bool(false))
    } else if word == "UNDEFINED"@ {
        Some(ObjectView::Undefined)
    } else if word == "ARRAY"@ {
        Some(ObjectView::Array(Seq::empty()))
    } else {
        None
    }
}

/// Whether the two texts are the same.
pub fn same_text(a: &str, b: &str) -> (r: bool)
    ensures
        r == (a@ == b@),
{
    String::from_str(a) == String::from_str(b)
}

// language constants
pub fn from_constant(constant: &String) -> (r: Option<RickrollObject>)
    ensures
        r is Some == constant_spec(constant@) is Some,
        r is Some ==> r->0@ == constant_spec(constant@)->0,
{
    if same_text(constant.as_str(), "TRUE") {
        Some(RickrollObject::Bool(true))
    } else if same_text(constant.as_str(), "FALSE") {
        Some(RickrollObject::Bool(false))
    } else if same_text(constant.as_str(), "UNDEFINED") {
        Some(RickrollObject::Undefined)
    } else if same_text(constant.as_str(), "ARRAY") {
        let items: Vec<RickrollObject> = Vec::new();
        proof {
            lemma_array_view(items);
            assert(objects_view(items@) =~= Seq::<ObjectView>::empty());
        }
        Some(RickrollObject::Array(items))
    } else {
        None
    }
}

/// The bindings of one block: which names are declared, and their values.
pub type Bindings = Map<Seq<char>, ObjectView>;

pub closed spec fn declares(entries: Seq<(String, RickrollObject)>, key: Seq<char>) -> bool {
    exists|i: int| 0 <= i < entries.len() && (#[trigger] entries[i]).0@ == key
}

pub closed spec fn slot(entries: Seq<(String, RickrollObject)>, key: Seq<char>) -> int {
    choose|i: int| 0 <= i < entries.len() && (#[trigger] entries[i]).0@ == key
}

pub closed spec fn distinct(entries: Seq<(String, RickrollObject)>) -> bool {
    forall|i: int, j: int|
        0 <= i < j < entries.len() ==> (#[trigger] entries[i]).0@ != (#[trigger] entries[j]).0@
}

pub closed spec fn bindings_of(entries: Seq<(String, RickrollObject)>) -> Bindings {
    Map::new(|k: Seq<char>| declares(entries, k), |k: Seq<char>| entries[slot(entries, k)].1@)
}

proof fn lemma_slot(entries: Seq<(String, RickrollObject)>, i: int)
    requires
        distinct(entries),
        0 <= i < entries.len(),
    ensures
        declares(entries, entries[i].0@),
        slot(entries, entries[i].0@) == i,
{
    let k = entries[i].0@;
    let j = slot(entries, k);
    assert(0 <= j < entries.len() && entries[j].0@ == k);
}

proof fn lemma_bindings_update(
    before: Seq<(String, RickrollObject)>,
    after: Seq<(String, RickrollObject)>,
    i: int,
)
    requires
        distinct(before),
        0 <= i < before.len(),
        after.len() == before.len(),
        after[i].0@ == before[i].0@,
        forall|j: int| 0 <= j < before.len() && j != i ==> after[j] == before[j],
    ensures
        distinct(after),
        bindings_of(after) == bindings_of(before).insert(after[i].0@, after[i].1@),
{
    assert forall|a: int, b: int| 0 <= a < b < after.len() implies (#[trigger] after[a]).0@ != (
    #[trigger] after[b]).0@ by {
        assert(after[a].0@ == before[a].0@);
        assert(after[b].0@ == before[b].0@);
    }
    let m1 = bindings_of(after);
    let m2 = bindings_of(before).insert(after[i].0@, after[i].1@);
    assert forall|k: Seq<char>| m1.contains_key(k) == m2.contains_key(k) by {
        if declares(after, k) {
            let j = slot(after, k);
            assert(before[j].0@ == k);
        }
        if declares(before, k) {
            let j = slot(before, k);
            assert(after[j].0@ == k);
        }
        if k == after[i].0@ {
            assert(after[i].0@ == k);
        }
    }
    assert forall|k: Seq<char>| m1.contains_key(k) implies m1[k] == m2[k] by {
        let j = slot(after, k);
        assert(0 <= j < after.len() && after[j].0@ == k);
        lemma_slot(after, j);
        if j == i {
        } else {
            assert(before[j].0@ == k);
            lemma_slot(before, j);
        }
    }
    assert(m1 =~= m2);
}

proof fn lemma_bindings_push(before: Seq<(String, RickrollObject)>, entry: (String, RickrollObject))
    requires
        distinct(before),
        !declares(before, entry.0@),
    ensures
        distinct(before.push(entry)),
        bindings_of(before.push(entry)) == bindings_of(before).insert(entry.0@, entry.1@),
{
    let after = before.push(entry);
    assert forall|a: int, b: int| 0 <= a < b < after.len() implies (#[trigger] after[a]).0@ != (
    #[trigger] after[b]).0@ by {
        if b == before.len() {
            assert(before[a].0@ != entry.0@);
        } else {
            assert(after[a] == before[a] && after[b] == before[b]);
        }
    }
    let m1 = bindings_of(after);
    let m2 = bindings_of(before).insert(entry.0@, entry.1@);
    assert forall|k: Seq<char>| m1.contains_key(k) == m2.contains_key(k) by {
        if declares(after, k) {
            let j = slot(after, k);
            if j < before.len() {
                assert(before[j].0@ == k);
            }
        }
        if declares(before, k) {
            let j = slot(before, k);
            assert(after[j].0@ == k);
        }
        if k == entry.0@ {
            assert(after[before.len() as int].0@ == k);
        }
    }
    assert forall|k: Seq<char>| m1.contains_key(k) implies m1[k] == m2[k] by {
        let j = slot(after, k);
        assert(0 <= j < after.len() && after[j].0@ == k);
        lemma_slot(after, j);
        if j < before.len() {
            assert(before[j].0@ == k);
            lemma_slot(before, j);
        }
    }
    assert(m1 =~= m2);
}

// variable cache for a single block
#[derive(Debug)]
pub struct Context {
    vars: Vec<(String, RickrollObject)>,
}

impl View for Context {
    type V = Bindings;

    closed spec fn view(&self) -> Bindings {
        bindings_of(self.vars@)
    }
}

impl Context {
    /// No name is declared twice.
    #[verifier::type_invariant]
    closed spec fn inv(&self) -> bool {
        distinct(self.vars@)
    }

    pub fn new() -> (r: Context)
        ensures
            r@ == Map::<Seq<char>, ObjectView>::empty(),
    {
        let r = Context { vars: Vec::new() };
        assert(r@ =~= Map::<Seq<char>, ObjectView>::empty());
        r
    }

    fn find(&self, name: &String) -> (r: Option<usize>)
        ensures
            match r {
                Some(i) => i < self.vars.len() && self.vars[i as int].0@ == name@,
                None => !declares(self.vars@, name@),
            },
    {
        let mut i: usize = 0;
        while i < self.vars.len()
            invariant
                i <= self.vars.len(),
                forall|j: int| 0 <= j < i ==> (#[trigger] self.vars[j]).0@ != name@,
            decreases self.vars.len() - i,
        {
            if self.vars[i].0 == *name {
                return Some(i);
            }
            i += 1;
        }
        None
    }

    /// Binds `name` to `value`, declaring the name if it is new.
    pub fn set_var(&mut self, name: String, value: RickrollObject)
        ensures
            final(self)@ == old(self)@.insert(name@, value@),
    {
        proof {
            use_type_invariant(&*self);
        }
        let found = self.find(&name);
        let ghost before = self.vars@;
        let mut vars: Vec<(String, RickrollObject)> = Vec::new();
        core::mem::swap(&mut self.vars, &mut vars);
        match found {
            Some(i) => {
                vars.set(i, (name, value));
                proof {
                    lemma_bindings_update(before, vars@, i as int);
                }
            },
            None => {
                vars.push((name, value));
                proof {
                    lemma_bindings_push(before, (name, value));
                }
            },
        }
        self.vars = vars;
    }

    /// A copy of the value bound to `name`.
    pub fn get_var(&self, name: String) -> (r: Option<RickrollObject>)
        ensures
            r is Some == self@.contains_key(name@),
            r is Some ==> r->0@ == self@[name@],
    {
        proof {
            use_type_invariant(self);
        }
        match self.find(&name) {
            Some(i) => {
                proof {
                    lemma_slot(self.vars@, i as int);
                }
                Some(self.vars[i].1.clone())
            },
            None => None,
        }
    }

    pub fn has_var(&self, name: String) -> (r: bool)
        ensures
            r == self@.contains_key(name@),
    {
        proof {
            use_type_invariant(self);
        }
        match self.find(&name) {
            Some(i) => {
                proof {
                    lemma_slot(self.vars@, i as int);
                }
                true
            },
            None => false,
        }
    }
}

/// What the blocks of a scope bind, the global block first.
pub open spec fn contexts_view(contexts: Seq<Context>) -> Seq<Bindings> {
    Seq::new(contexts.len(), |i: int| contexts[i]@)
}

/// The innermost block that declares `name`, or -1 where none does.
pub open spec fn depth_of(s: Seq<Bindings>, name: Seq<char>) -> int
    decreases s.len(),
{
    if s.len() == 0 {
        -1
    } else if s.last().contains_key(name) {
        s.len() - 1
    } else {
        depth_of(s.drop_last(), name)
    }
}

/// Whether some block declares `name`.
pub open spec fn scope_has(s: Seq<Bindings>, name: Seq<char>) -> bool {
    depth_of(s, name) >= 0
}

/// The value of `name` in the innermost block that declares it.
pub open spec fn scope_get(s: Seq<Bindings>, name: Seq<char>) -> ObjectView {
    s[depth_of(s, name)][name]
}

/// The scope after `name` is given `value` in the innermost block that
/// declares it; unchanged where none does.
pub open spec fn scope_set(s: Seq<Bindings>, name: Seq<char>, value: ObjectView) -> Seq<Bindings> {
    let d = depth_of(s, name);
    if d >= 0 {
        s.update(d, s[d].insert(name, value))
    } else {
        s
    }
}

/// The scope after `name` is declared in block `d`, undefined.
pub open spec fn scope_declare(s: Seq<Bindings>, d: int, name: Seq<char>) -> Seq<Bindings> {
    s.update(d, s[d].insert(name, ObjectView::Undefined))
}

/// The innermost block that declares a name is the one above which no
/// block declares it.
pub proof fn lemma_depth_of(s: Seq<Bindings>, name: Seq<char>, d: int)
    requires
        -1 <= d < s.len(),
        d >= 0 ==> s[d].contains_key(name),
        forall|j: int| d < j < s.len() ==> !(#[trigger] s[j]).contains_key(name),
    ensures
        depth_of(s, name) == d,
    decreases s.len(),
{
    if s.len() > 0 && d < s.len() - 1 {
        let t = s.drop_last();
        assert forall|j: int| d < j < t.len() implies !(#[trigger] t[j]).contains_key(name) by {
            assert(t[j] == s[j]);
        }
        lemma_depth_of(t, name, d);
    }
}

/// The block that `depth_of` finds is in the scope and declares the name.
pub proof fn lemma_depth_bounds(s: Seq<Bindings>, name: Seq<char>)
    ensures
        -1 <= depth_of(s, name) < s.len(),
        depth_of(s, name) >= 0 ==> s[depth_of(s, name)].contains_key(name),
    decreases s.len(),
{
    if s.len() > 0 && !s.last().contains_key(name) {
        lemma_depth_bounds(s.drop_last(), name);
    }
}

/// The live stack of blocks, the permanent global block at the bottom.
#[derive(Debug)]
pub struct Scope {
    contexts: Vec<Context>,
}

impl View for Scope {
    type V = Seq<Bindings>;

    closed spec fn view(&self) -> Seq<Bindings> {
        contexts_view(self.contexts@)
    }
}

impl Scope {
    /// The global block is always there.
    #[verifier::type_invariant]
    pub closed spec fn inv(&self) -> bool {
        self.contexts.len() >= 1
    }

    /// A scope is never empty.
    pub proof fn lemma_nonempty(&self)
        requires
            self.inv(),
        ensures
            self@.len() >= 1,
    {
    }

    pub fn new() -> (r: Scope)
        ensures
            r@ == seq![Map::<Seq<char>, ObjectView>::empty()],
    {
        let mut contexts: Vec<Context> = Vec::new();
        contexts.push(Context::new());
        let r = Scope { contexts };
        assert(r@ =~= seq![Map::<Seq<char>, ObjectView>::empty()]);
        r
    }

    /// The number of blocks, the global one counted.
    pub fn len(&self) -> (r: usize)
        ensures
            r == self@.len(),
            r >= 1,
    {
        proof {
            use_type_invariant(self);
        }
        self.contexts.len()
    }

    fn take(&mut self) -> (r: Vec<Context>)
        ensures
            r == old(self).contexts,
            r.len() >= 1,
    {
        proof {
            use_type_invariant(&*self);
        }
        let mut contexts: Vec<Context> = Vec::new();
        contexts.push(Context::new());
        core::mem::swap(&mut self.contexts, &mut contexts);
        contexts
    }

    pub fn push(&mut self, context: Context)
        ensures
            final(self)@ == old(self)@.push(context@),
    {
        let mut contexts = self.take();
        contexts.push(context);
        self.contexts = contexts;
        assert(self@ =~= old(self)@.push(context@));
    }

    pub fn push_all(&mut self, contexts: Vec<Context>)
        ensures
            final(self)@ == old(self)@ + contexts_view(contexts@),
    {
        let mut own = self.take();
        let mut rest = contexts;
        own.append(&mut rest);
        self.contexts = own;
        assert(self@ =~= old(self)@ + contexts_view(contexts@));
    }

    /// Strips the scope down to its global block and hands back the rest.
    pub fn behead(&mut self) -> (tail: Vec<Context>)
        ensures
            final(self)@ == old(self)@.subrange(0, 1),
            contexts_view(tail@) == old(self)@.subrange(1, old(self)@.len() as int),
    {
        let mut own = self.take();
        let tail = own.split_off(1);
        self.contexts = own;
        assert(self@ =~= old(self)@.subrange(0, 1));
        assert(contexts_view(tail@) =~= old(self)@.subrange(1, old(self)@.len() as int));
        tail
    }

    /// The global block.
    pub fn get_global(&self) -> (r: &Context)
        ensures
            r@ == self@[0],
    {
        proof {
            use_type_invariant(self);
        }
        &self.contexts[0]
    }

    /// Removes the innermost block. The global block cannot be removed.
    pub fn pop(&mut self) -> (r: Context)
        requires
            old(self)@.len() > 1,
        ensures
            final(self)@ == old(self)@.drop_last(),
            r@ == old(self)@.last(),
    {
        let mut own = self.take();
        let r = own.pop().unwrap();
        self.contexts = own;
        assert(self@ =~= old(self)@.drop_last());
        r
    }

    fn find(&self, name: &String) -> (r: Option<usize>)
        ensures
            match r {
                Some(i) => i == depth_of(self@, name@),
                None => depth_of(self@, name@) == -1,
            },
    {
        let mut i: usize = self.contexts.len();
        while i > 0
            invariant
                i <= self.contexts.len(),
                forall|j: int| i <= j < self@.len() ==> !(#[trigger] self@[j]).contains_key(name@),
            decreases i,
        {
            i -= 1;
            if self.contexts[i].has_var(name.clone()) {
                proof {
                    lemma_depth_of(self@, name@, i as int);
                }
                return Some(i);
            }
        }
        proof {
            lemma_depth_of(self@, name@, -1);
        }
        None
    }

    // sets a variable in the scope
    // does nothing if variable doesn't exist
    pub fn set_var(&mut self, name: String, value: RickrollObject)
        ensures
            final(self)@ == scope_set(old(self)@, name@, value@),
    {
        match self.find(&name) {
            Some(i) => {
                proof {
                    lemma_depth_bounds(self@, name@);
                }
                let mut own = self.take();
                let mut context = own.remove(i);
                context.set_var(name, value);
                own.insert(i, context);
                self.contexts = own;
                assert(self@ =~= scope_set(old(self)@, name@, value@));
            },
            None => {},
        }
    }

    // gets the value of a variable in the scope
    // returns None if variable doesn't exist
    pub fn get_var(&self, name: String) -> (r: Option<RickrollObject>)
        ensures
            r is Some == scope_has(self@, name@),
            r is Some ==> r->0@ == scope_get(self@, name@),
    {
        match self.find(&name) {
            Some(i) => {
                proof {
                    lemma_depth_bounds(self@, name@);
                }
                self.contexts[i].get_var(name)
            },
            None => None,
        }
    }

    pub fn has_var(&self, name: String) -> (r: bool)
        ensures
            r == scope_has(self@, name@),
    {
        self.find(&name).is_some()
    }

    /// Whether the innermost block declares `name`.
    pub fn declared_here(&self, name: String) -> (r: bool)
        ensures
            r == self@.last().contains_key(name@),
    {
        proof {
            use_type_invariant(self);
        }
        self.contexts[self.contexts.len() - 1].has_var(name)
    }

    /// Declares `name` in the innermost block, undefined.
    pub fn add_var(&mut self, name: String)
        ensures
            final(self)@ == scope_declare(old(self)@, old(self)@.len() - 1, name@),
    {
        let mut own = self.take();
        let mut context = own.pop().unwrap();
        context.set_var(name, RickrollObject::Undefined);
        own.push(context);
        self.contexts = own;
        assert(self@ =~= scope_declare(old(self)@, old(self)@.len() - 1, name@));
    }

    /// Binds `name` to `value` in the innermost block.
    pub fn bind(&mut self, name: String, value: RickrollObject)
        ensures
            final(self)@ == old(self)@.update(
                old(self)@.len() - 1,
                old(self)@.last().insert(name@, value@),
            ),
    {
        let mut own = self.take();
        let mut context = own.pop().unwrap();
        context.set_var(name, value);
        own.push(context);
        self.contexts = own;
        assert(self@ =~= old(self)@.update(
            old(self)@.len() - 1,
            old(self)@.last().insert(name@, value@),
        ));
    }

    /// Declares `name` in the global block, undefined.
    pub fn add_global(&mut self, name: String)
        ensures
            final(self)@ == scope_declare(old(self)@, 0, name@),
    {
        let mut own = self.take();
        let mut context = own.remove(0);
        context.set_var(name, RickrollObject::Undefined);
        own.insert(0, context);
        self.contexts = own;
        assert(self@ =~= scope_declare(old(self)@, 0, name@));
    }
}

} // verus!
