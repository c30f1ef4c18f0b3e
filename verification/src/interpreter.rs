//! Runtime values, runtime errors and the chain of lexical scopes.
//!
//! A number is an IEEE 754 double, held by its bit pattern in a `u64`. What
//! can be said of a double from its bits alone is decided here: its sign,
//! whether it is a NaN, equality and order. Arithmetic, reading a numeral
//! and writing a number are not.

use vstd::prelude::*;
use vstd::string::StringExecFns;

use crate::text::{chars_of, decimal, decimal_text, str_equal};

verus! {

/// The sign bit of a double.
pub const SIGN_BIT: u64 = 0x8000_0000_0000_0000;

/// The bits of positive infinity: every magnitude above it is a NaN.
pub const INFINITY_BITS: u64 = 0x7ff0_0000_0000_0000;

/// The bits of a double without its sign bit.
pub open spec fn magnitude(bits: u64) -> u64 {
    if bits >= SIGN_BIT {
        (bits - SIGN_BIT) as u64
    } else {
        bits
    }
}

/// Whether the sign bit is set.
pub open spec fn is_negative(bits: u64) -> bool {
    bits >= SIGN_BIT
}

/// Whether the bits are those of a NaN.
pub open spec fn is_nan(bits: u64) -> bool {
    magnitude(bits) > INFINITY_BITS
}

/// Whether the bits are those of a zero, positive or negative.
pub open spec fn is_zero(bits: u64) -> bool {
    magnitude(bits) == 0
}

/// The double with the opposite sign.
pub open spec fn negated(bits: u64) -> u64 {
    if bits >= SIGN_BIT {
        (bits - SIGN_BIT) as u64
    } else {
        (bits + SIGN_BIT) as u64
    }
}

/// Equality of doubles: a NaN equals nothing, the two zeros are equal,
/// and otherwise equal numbers have equal bits.
pub open spec fn number_equal(a: u64, b: u64) -> bool {
    !is_nan(a) && !is_nan(b) && (a == b || (is_zero(a) && is_zero(b)))
}

/// Order of doubles: a NaN is below and above nothing, the two zeros are
/// equal, a negative number is below a positive one, and within one sign
/// the magnitudes decide.
pub open spec fn number_less(a: u64, b: u64) -> bool {
    &&& !is_nan(a)
    &&& !is_nan(b)
    &&& !(is_zero(a) && is_zero(b))
    &&& if is_negative(a) != is_negative(b) {
        is_negative(a)
    } else if is_negative(a) {
        magnitude(a) > magnitude(b)
    } else {
        magnitude(a) < magnitude(b)
    }
}

/// Lexicographic order of texts, character by character.
pub open spec fn text_less(a: Seq<char>, b: Seq<char>) -> bool
    decreases a.len(),
{
    if b.len() == 0 {
        false
    } else if a.len() == 0 {
        true
    } else if a[0] != b[0] {
        a[0] < b[0]
    } else {
        text_less(a.drop_first(), b.drop_first())
    }
}

/// The double with the opposite sign.
pub fn negate_number(bits: u64) -> (r: u64)
    ensures
        r == negated(bits),
{
    if bits >= SIGN_BIT {
        bits - SIGN_BIT
    } else {
        bits + SIGN_BIT
    }
}

fn magnitude_of(bits: u64) -> (r: u64)
    ensures
        r == magnitude(bits),
{
    if bits >= SIGN_BIT {
        bits - SIGN_BIT
    } else {
        bits
    }
}

/// Whether two doubles are equal.
pub fn numbers_equal(a: u64, b: u64) -> (r: bool)
    ensures
        r == number_equal(a, b),
{
    let ma = magnitude_of(a);
    let mb = magnitude_of(b);
    ma <= INFINITY_BITS && mb <= INFINITY_BITS && (a == b || (ma == 0 && mb == 0))
}

/// Whether the double `a` is below the double `b`.
pub fn number_is_less(a: u64, b: u64) -> (r: bool)
    ensures
        r == number_less(a, b),
{
    let ma = magnitude_of(a);
    let mb = magnitude_of(b);
    if ma > INFINITY_BITS || mb > INFINITY_BITS || (ma == 0 && mb == 0) {
        false
    } else if (a >= SIGN_BIT) != (b >= SIGN_BIT) {
        a >= SIGN_BIT
    } else if a >= SIGN_BIT {
        ma > mb
    } else {
        ma < mb
    }
}

/// Whether the text `a` comes before the text `b`.
pub fn text_is_less(a: &str, b: &str) -> (r: bool)
    ensures
        r == text_less(a@, b@),
{
    let x = chars_of(a);
    let y = chars_of(b);
    let mut i: usize = 0;
    proof {
        assert(x@.skip(0) =~= x@);
        assert(y@.skip(0) =~= y@);
    }
    while i < x.len() && i < y.len()
        invariant
            x@ == a@,
            y@ == b@,
            i <= x.len(),
            i <= y.len(),
            text_less(a@, b@) == text_less(x@.skip(i as int), y@.skip(i as int)),
        decreases x.len() - i,
    {
        proof {
            let xs = x@.skip(i as int);
            let ys = y@.skip(i as int);
            assert(xs[0] == x@[i as int]);
            assert(ys[0] == y@[i as int]);
            assert(xs.drop_first() =~= x@.skip(i + 1));
            assert(ys.drop_first() =~= y@.skip(i + 1));
        }
        if x[i] != y[i] {
            return x[i] < y[i];
        }
        i += 1;
    }
    i < y.len()
}

/// The types of runtime values.
#[derive(Debug, PartialEq, Eq, Clone, Copy, Structural)]
pub enum LoxType {
    Number,
    Str,
    Bool,
    Nil,
}

/// A runtime value.
#[derive(Debug, PartialEq)]
pub enum LoxResult {
    /// A double, by its bits.
    Number(u64),
    Str(String),
    Bool(bool),
    Nil,
}

/// What a `LoxResult` stands for.
pub enum Value {
    Number(u64),
    Str(Seq<char>),
    Bool(bool),
    Nil,
}

impl View for LoxResult {
    type V = Value;

    open spec fn view(&self) -> Value {
        match self {
            LoxResult::Number(bits) => Value::Number(*bits),
            LoxResult::Str(text) => Value::Str(text@),
            LoxResult::Bool(b) => Value::Bool(*b),
            LoxResult::Nil => Value::Nil,
        }
    }
}

impl Clone for LoxResult {
    fn clone(&self) -> (r: LoxResult)
        ensures
            r@ == self@,
    {
        match self {
            LoxResult::Number(bits) => LoxResult::Number(*bits),
            LoxResult::Str(text) => LoxResult::Str(text.clone()),
            LoxResult::Bool(b) => LoxResult::Bool(*b),
            LoxResult::Nil => LoxResult::Nil,
        }
    }
}

/// The type of a value.
pub open spec fn type_of(v: Value) -> LoxType {
    match v {
        Value::Number(_) => LoxType::Number,
        Value::Str(_) => LoxType::Str,
        Value::Bool(_) => LoxType::Bool,
        Value::Nil => LoxType::Nil,
    }
}

/// The name of a type, as messages write it.
pub open spec fn type_label(t: LoxType) -> Seq<char> {
    match t {
        LoxType::Number => "Number"@,
        LoxType::Str => "Str"@,
        LoxType::Bool => "Bool"@,
        LoxType::Nil => "Nil"@,
    }
}

/// Equality of two values: of the same type and equal in it. Numbers are
/// equal as doubles are, texts by their characters.
pub open spec fn value_equal(a: Value, b: Value) -> bool {
    match (a, b) {
        (Value::Number(x), Value::Number(y)) => number_equal(x, y),
        (Value::Str(x), Value::Str(y)) => x == y,
        (Value::Bool(x), Value::Bool(y)) => x == y,
        (Value::Nil, Value::Nil) => true,
        _ => false,
    }
}

/// Strict order of two values of one type: numbers as doubles, texts
/// lexicographically, `false` before `true`. Values of different types are
/// ordered by their types, in the order number, text, boolean, nil.
pub open spec fn value_less(a: Value, b: Value) -> bool {
    match (a, b) {
        (Value::Number(x), Value::Number(y)) => number_less(x, y),
        (Value::Str(x), Value::Str(y)) => text_less(x, y),
        (Value::Bool(x), Value::Bool(y)) => !x && y,
        (Value::Nil, Value::Nil) => false,
        (Value::Number(_), _) => true,
        (Value::Str(_), Value::Bool(_)) => true,
        (Value::Str(_), Value::Nil) => true,
        (Value::Bool(_), Value::Nil) => true,
        _ => false,
    }
}

impl LoxType {
    /// The name of the type, as messages write it.
    pub fn name(&self) -> (r: &'static str)
        ensures
            r@ == type_label(*self),
    {
        match self {
            LoxType::Number => "Number",
            LoxType::Str => "Str",
            LoxType::Bool => "Bool",
            LoxType::Nil => "Nil",
        }
    }
}

impl LoxResult {
    pub fn get_type(&self) -> (t: LoxType)
        ensures
            t == type_of(self@),
    {
        match self {
            Self::Number(_) => LoxType::Number,
            Self::Str(_) => LoxType::Str,
            Self::Bool(_) => LoxType::Bool,
            Self::Nil => LoxType::Nil,
        }
    }

    /// The bits of a number.
    pub fn unwrap_number(self) -> (bits: u64)
        requires
            self is Number,
        ensures
            self@ == Value::Number(bits),
    {
        match self {
            Self::Number(n) => n,
            _ => vstd::pervasive::unreached(),
        }
    }

    /// The text of a string.
    pub fn unwrap_string(self) -> (text: String)
        requires
            self is Str,
        ensures
            self@ == Value::Str(text@),
    {
        match self {
            Self::Str(n) => n,
            _ => vstd::pervasive::unreached(),
        }
    }

    /// Whether the two values are equal.
    pub fn equals(&self, other: &LoxResult) -> (r: bool)
        ensures
            r == value_equal(self@, other@),
    {
        match (self, other) {
            (LoxResult::Number(x), LoxResult::Number(y)) => numbers_equal(*x, *y),
            (LoxResult::Str(x), LoxResult::Str(y)) => str_equal(x.as_str(), y.as_str()),
            (LoxResult::Bool(x), LoxResult::Bool(y)) => *x == *y,
            (LoxResult::Nil, LoxResult::Nil) => true,
            _ => false,
        }
    }

    /// Whether this value is below `other`.
    pub fn less_than(&self, other: &LoxResult) -> (r: bool)
        ensures
            r == value_less(self@, other@),
    {
        match (self, other) {
            (LoxResult::Number(x), LoxResult::Number(y)) => number_is_less(*x, *y),
            (LoxResult::Str(x), LoxResult::Str(y)) => text_is_less(x.as_str(), y.as_str()),
            (LoxResult::Bool(x), LoxResult::Bool(y)) => !*x && *y,
            (LoxResult::Nil, LoxResult::Nil) => false,
            (LoxResult::Number(_), _) => true,
            (LoxResult::Str(_), LoxResult::Bool(_)) => true,
            (LoxResult::Str(_), LoxResult::Nil) => true,
            (LoxResult::Bool(_), LoxResult::Nil) => true,
            _ => false,
        }
    }
}

/// A runtime error: what went wrong, and the span of the expression that
/// found it.
#[derive(Debug)]
pub struct LoxRuntimeError {
    message: String,
    index: usize,
    len: usize,
}

/// What a `LoxRuntimeError` stands for.
pub struct RuntimeErrorView {
    pub message: Seq<char>,
    pub index: nat,
    pub len: nat,
}

impl View for LoxRuntimeError {
    type V = RuntimeErrorView;

    closed spec fn view(&self) -> RuntimeErrorView {
        RuntimeErrorView { message: self.message@, index: self.index as nat, len: self.len as nat }
    }
}

impl LoxRuntimeError {
    pub fn new(message: String, index: usize, len: usize) -> (e: LoxRuntimeError)
        ensures
            e@ == (RuntimeErrorView { message: message@, index: index as nat, len: len as nat }),
    {
        LoxRuntimeError { message, index, len }
    }

    pub fn message(&self) -> (r: &str)
        ensures
            r@ == self@.message,
    {
        self.message.as_str()
    }

    pub fn index(&self) -> (r: usize)
        ensures
            r == self@.index,
    {
        self.index
    }

    pub fn len(&self) -> (r: usize)
        ensures
            r == self@.len,
    {
        self.len
    }

    /// The error as one line of text.
    pub fn to_string(&self) -> (r: String)
        ensures
            r@ == "Error: "@ + self@.message + " at "@ + decimal(self@.index) + " until "@
                + decimal(self@.len),
    {
        let mut r = String::from_str("Error: ");
        r.append(self.message.as_str());
        r.append(" at ");
        r.append(decimal_text(self.index).as_str());
        r.append(" until ");
        r.append(decimal_text(self.len).as_str());
        r
    }
}

/// One scope: the names declared in it, each with its value, or with none
/// when it was declared without an initializer.
pub type Scope = Map<Seq<char>, Option<Value>>;

/// What an optional runtime value stands for.
pub open spec fn slot_view(slot: Option<LoxResult>) -> Option<Value> {
    match slot {
        Some(v) => Some(v@),
        None => None,
    }
}

/// What a lookup returns, as a view.
pub open spec fn found_view(found: Option<Option<LoxResult>>) -> Option<Option<Value>> {
    match found {
        Some(slot) => Some(slot_view(slot)),
        None => None,
    }
}

/// Looks `name` up in a chain of scopes, innermost first: the binding in
/// the nearest scope that declares it, or `None` when no scope does.
pub open spec fn lookup(env: Seq<Scope>, name: Seq<char>) -> Option<Option<Value>>
    decreases env.len(),
{
    if env.len() == 0 {
        None
    } else if env[0].contains_key(name) {
        Some(env[0][name])
    } else {
        lookup(env.drop_first(), name)
    }
}

/// The chain after `name` is declared in its innermost scope. An older
/// binding of `name` in that scope is replaced; outer scopes stay as they
/// are.
pub open spec fn declared(env: Seq<Scope>, name: Seq<char>, value: Option<Value>) -> Seq<Scope> {
    if env.len() == 0 {
        env
    } else {
        env.update(0, env[0].insert(name, value))
    }
}

/// The chain after `value` is assigned to `name`: the binding in the
/// nearest scope that declares `name` is overwritten. `None` when no scope
/// declares it.
pub open spec fn assigned(env: Seq<Scope>, name: Seq<char>, value: Value) -> Option<Seq<Scope>>
    decreases env.len(),
{
    if env.len() == 0 {
        None
    } else if env[0].contains_key(name) {
        Some(env.update(0, env[0].insert(name, Some(value))))
    } else {
        match assigned(env.drop_first(), name, value) {
            Some(outer) => Some(seq![env[0]] + outer),
            None => None,
        }
    }
}

/// The chain with a new, empty innermost scope.
pub open spec fn entered(env: Seq<Scope>) -> Seq<Scope> {
    seq![Map::empty()] + env
}

/// The chain without its innermost scope. The outermost scope is never
/// left.
pub open spec fn left(env: Seq<Scope>) -> Seq<Scope> {
    if env.len() > 1 {
        env.drop_first()
    } else {
        env
    }
}

/// A name declared in a block shadows the same name outside for as long as
/// the block lasts: inside the block the name reads as declared there, and
/// leaving the block gives back the chain from before the block, in which
/// the name reads as it did.
pub proof fn lemma_block_scope(env: Seq<Scope>, name: Seq<char>, value: Option<Value>)
    requires
        env.len() >= 1,
    ensures
        lookup(declared(entered(env), name, value), name) == Some(value),
        left(declared(entered(env), name, value)) == env,
        lookup(left(declared(entered(env), name, value)), name) == lookup(env, name),
{
    let inside = declared(entered(env), name, value);
    assert(inside[0].contains_key(name));
    assert(inside.drop_first() =~= env);
}

/// Declaring a name changes how that name reads and no other.
pub proof fn lemma_declared_lookup(
    env: Seq<Scope>,
    name: Seq<char>,
    value: Option<Value>,
    other: Seq<char>,
)
    requires
        env.len() >= 1,
    ensures
        lookup(declared(env, name, value), name) == Some(value),
        other != name ==> lookup(declared(env, name, value), other) == lookup(env, other),
{
    let after = declared(env, name, value);
    assert(after[0].contains_key(name));
    assert(after.drop_first() =~= env.drop_first());
}

/// Assignment succeeds exactly on a name that some scope declares. It
/// changes how that name reads and no other, and it keeps the number of
/// scopes.
pub proof fn lemma_assigned_lookup(
    env: Seq<Scope>,
    name: Seq<char>,
    value: Value,
    other: Seq<char>,
)
    ensures
        assigned(env, name, value) is Some <==> lookup(env, name) is Some,
        assigned(env, name, value) matches Some(after) ==> {
            &&& after.len() == env.len()
            &&& lookup(after, name) == Some(Some(value))
            &&& other != name ==> lookup(after, other) == lookup(env, other)
        },
    decreases env.len(),
{
    if env.len() > 0 {
        if env[0].contains_key(name) {
            let after = env.update(0, env[0].insert(name, Some(value)));
            assert(after[0].contains_key(name));
            assert(after.drop_first() =~= env.drop_first());
        } else {
            lemma_assigned_lookup(env.drop_first(), name, value, other);
            match assigned(env.drop_first(), name, value) {
                Some(outer) => {
                    let after = seq![env[0]] + outer;
                    assert(after[0] == env[0]);
                    assert(after.drop_first() =~= outer);
                },
                None => {},
            }
        }
    }
}

/// Whether two chains have the same scopes with the same names declared in
/// each: they differ at most in what the names are bound to.
pub open spec fn same_names(a: Seq<Scope>, b: Seq<Scope>) -> bool {
    &&& a.len() == b.len()
    &&& forall|i: int| 0 <= i < a.len() ==> (#[trigger] a[i]).dom() == b[i].dom()
}

/// Whether the chain `after` has the scopes of `before`, with the same
/// names declared in each but for the innermost, in which more names may be
/// declared.
pub open spec fn same_outer_names(after: Seq<Scope>, before: Seq<Scope>) -> bool {
    &&& after.len() == before.len()
    &&& forall|i: int| 1 <= i < after.len() ==> (#[trigger] after[i]).dom() == before[i].dom()
    &&& after.len() > 0 ==> before[0].dom().subset_of(after[0].dom())
}

/// Assignment declares nothing: every scope keeps its names.
pub proof fn lemma_assigned_keeps_names(env: Seq<Scope>, name: Seq<char>, value: Value)
    ensures
        assigned(env, name, value) matches Some(after) ==> same_names(after, env),
    decreases env.len(),
{
    if env.len() > 0 {
        if env[0].contains_key(name) {
            let after = env.update(0, env[0].insert(name, Some(value)));
            assert(after[0].dom() =~= env[0].dom());
        } else {
            lemma_assigned_keeps_names(env.drop_first(), name, value);
            match assigned(env.drop_first(), name, value) {
                Some(outer) => {
                    let after = seq![env[0]] + outer;
                    assert forall|i: int| 0 <= i < after.len() implies (#[trigger] after[i]).dom()
                        == env[i].dom() by {
                        if i > 0 {
                            assert(after[i] == outer[i - 1]);
                            assert(env[i] == env.drop_first()[i - 1]);
                        }
                    }
                },
                None => {},
            }
        }
    }
}

/// A declaration adds its name to the innermost scope and leaves the names
/// of every scope around it as they are.
pub proof fn lemma_declared_keeps_outer_names(
    env: Seq<Scope>,
    name: Seq<char>,
    value: Option<Value>,
)
    ensures
        same_outer_names(declared(env, name, value), env),
{
    if env.len() > 0 {
        let after = declared(env, name, value);
        assert(env[0].dom().subset_of(after[0].dom()));
    }
}

/// A name with what it is bound to.
struct Binding {
    name: String,
    value: Option<LoxResult>,
}

/// The scope that a list of bindings stands for. Where a name occurs more
/// than once, the last occurrence counts.
spec fn scope_map(bindings: Seq<Binding>) -> Scope
    decreases bindings.len(),
{
    if bindings.len() == 0 {
        Map::empty()
    } else {
        scope_map(bindings.drop_last()).insert(
            bindings.last().name@,
            slot_view(bindings.last().value),
        )
    }
}

/// Whether `i` is the last position in `bindings` that binds `key`.
spec fn is_last_binding(bindings: Seq<Binding>, key: Seq<char>, i: int) -> bool {
    &&& 0 <= i < bindings.len()
    &&& bindings[i].name@ == key
    &&& forall|j: int| i < j < bindings.len() ==> (#[trigger] bindings[j]).name@ != key
}

proof fn lemma_scope_map_missing(bindings: Seq<Binding>, key: Seq<char>)
    requires
        forall|j: int| 0 <= j < bindings.len() ==> (#[trigger] bindings[j]).name@ != key,
    ensures
        !scope_map(bindings).contains_key(key),
    decreases bindings.len(),
{
    if bindings.len() > 0 {
        lemma_scope_map_missing(bindings.drop_last(), key);
    }
}

proof fn lemma_scope_map_found(bindings: Seq<Binding>, key: Seq<char>, i: int)
    requires
        is_last_binding(bindings, key, i),
    ensures
        scope_map(bindings).contains_key(key),
        scope_map(bindings)[key] == slot_view(bindings[i].value),
    decreases bindings.len(),
{
    if i < bindings.len() - 1 {
        lemma_scope_map_found(bindings.drop_last(), key, i);
    }
}

proof fn lemma_scope_map_update(bindings: Seq<Binding>, key: Seq<char>, i: int, new: Binding)
    requires
        is_last_binding(bindings, key, i),
        new.name@ == key,
    ensures
        scope_map(bindings.update(i, new)) == scope_map(bindings).insert(
            key,
            slot_view(new.value),
        ),
    decreases bindings.len(),
{
    let updated = bindings.update(i, new);
    if i == bindings.len() - 1 {
        assert(updated.drop_last() =~= bindings.drop_last());
        assert(scope_map(updated) =~= scope_map(bindings).insert(key, slot_view(new.value)));
    } else {
        lemma_scope_map_update(bindings.drop_last(), key, i, new);
        assert(updated.drop_last() =~= bindings.drop_last().update(i, new));
        assert(updated.last() == bindings.last());
        assert(scope_map(updated) =~= scope_map(bindings).insert(key, slot_view(new.value)));
    }
}

/// A scope, with the scope that encloses it, if any.
pub struct Environment {
    bindings: Vec<Binding>,
    parent: Option<Box<Environment>>,
}

impl Environment {
    /// The chain of scopes that this environment stands for, innermost
    /// first.
    pub closed spec fn model(self) -> Seq<Scope>
        decreases self,
    {
        seq![scope_map(self.bindings@)] + match self.parent {
            Some(parent) => (*parent).model(),
            None => Seq::empty(),
        }
    }

    /// A chain has at least its own scope.
    pub proof fn lemma_not_empty(self)
        ensures
            self@.len() >= 1,
    {
    }

    /// The global scope: empty, with nothing around it.
    pub fn new() -> (env: Environment)
        ensures
            env@ == seq![Scope::empty()],
    {
        let env = Environment { bindings: Vec::new(), parent: None };
        proof {
            assert(env.model() =~= seq![Scope::empty()]);
        }
        env
    }

    /// A new, empty scope inside `env`.
    pub fn with_parent(env: Environment) -> (child: Environment)
        ensures
            child@ == entered(env@),
    {
        Environment { bindings: Vec::new(), parent: Some(Box::new(env)) }
    }

    /// Leaves the innermost scope: the enclosing environment, with whatever
    /// was assigned in it meanwhile. The global scope is never left.
    pub fn into_parent(self) -> (outer: Environment)
        ensures
            outer@ == left(self@),
    {
        proof {
            match &self.parent {
                Some(parent) => {
                    (**parent).lemma_not_empty();
                    assert(self.model().drop_first() =~= (**parent).model());
                },
                None => {
                    assert(self.model().len() == 1);
                },
            }
        }
        match self.parent {
            Some(parent) => *parent,
            None => Environment { bindings: self.bindings, parent: None },
        }
    }

    /// The last position in this scope's own bindings that binds `key`.
    fn position(&self, key: &str) -> (r: Option<usize>)
        ensures
            match r {
                Some(i) => is_last_binding(self.bindings@, key@, i as int),
                None => forall|j: int|
                    0 <= j < self.bindings@.len() ==> (#[trigger] self.bindings@[j]).name@ != key@,
            },
    {
        let mut i: usize = self.bindings.len();
        while i > 0
            invariant
                i <= self.bindings.len(),
                forall|j: int|
                    i <= j < self.bindings@.len() ==> (#[trigger] self.bindings@[j]).name@ != key@,
            decreases i,
        {
            i -= 1;
            if str_equal(self.bindings[i].name.as_str(), key) {
                return Some(i);
            }
        }
        None
    }

    /// Looks `key` up, in this scope first and then outward. `None`: no
    /// scope declares it. `Some(None)`: declared, and never given a value.
    /// `Some(Some(v))`: bound to `v`.
    pub fn get(&self, key: &str) -> (r: Option<Option<LoxResult>>)
        ensures
            found_view(r) == lookup(self@, key@),
        decreases self,
    {
        proof {
            assert(self.model()[0] == scope_map(self.bindings@));
            match &self.parent {
                Some(parent) => {
                    assert(self.model().drop_first() =~= (**parent).model());
                },
                None => {
                    assert(self.model().drop_first() =~= Seq::<Scope>::empty());
                    assert(lookup(Seq::<Scope>::empty(), key@) is None);
                },
            }
        }
        match self.position(key) {
            Some(i) => {
                proof {
                    lemma_scope_map_found(self.bindings@, key@, i as int);
                }
                match &self.bindings[i].value {
                    Some(v) => Some(Some(v.clone())),
                    None => Some(None),
                }
            },
            None => {
                proof {
                    lemma_scope_map_missing(self.bindings@, key@);
                }
                match &self.parent {
                    Some(parent) => parent.get(key),
                    None => None,
                }
            },
        }
    }

    /// Declares `key` in this scope, the innermost one. Declaring a name
    /// again in the same scope replaces its binding.
    pub fn declare(&mut self, key: String, value: Option<LoxResult>)
        ensures
            final(self)@ == declared(old(self)@, key@, slot_view(value)),
    {
        let ghost before = self.bindings@;
        let binding = Binding { name: key, value };
        match self.position(binding.name.as_str()) {
            Some(i) => {
                proof {
                    lemma_scope_map_update(before, binding.name@, i as int, binding);
                }
                self.bindings.set(i, binding);
            },
            None => {
                proof {
                    assert(before.push(binding).drop_last() =~= before);
                }
                self.bindings.push(binding);
            },
        }
        proof {
            assert(final(self).model() =~= declared(
                old(self).model(),
                binding.name@,
                slot_view(binding.value),
            ));
        }
    }

    /// Assigns `value` to `key` in the nearest scope that declares it.
    /// Fails, and changes nothing, when no scope declares it.
    pub fn set(&mut self, key: &str, value: LoxResult) -> (r: Result<(), ()>)
        ensures
            match assigned(old(self)@, key@, value@) {
                Some(env) => r is Ok && final(self)@ == env,
                None => r is Err && final(self)@ == old(self)@,
            },
        decreases *old(self),
    {
        let ghost before = self.bindings@;
        proof {
            assert(self.model()[0] == scope_map(self.bindings@));
        }
        match self.position(key) {
            Some(i) => {
                let binding = Binding { name: key.to_owned(), value: Some(value) };
                proof {
                    lemma_scope_map_found(before, key@, i as int);
                    lemma_scope_map_update(before, key@, i as int, binding);
                }
                self.bindings.set(i, binding);
                proof {
                    assert(final(self).model() =~= old(self).model().update(
                        0,
                        old(self).model()[0].insert(key@, Some(value@)),
                    ));
                }
                Ok(())
            },
            None => {
                proof {
                    lemma_scope_map_missing(before, key@);
                }
                match &mut self.parent {
                    Some(parent) => {
                        proof {
                            assert(old(self).model().drop_first() =~= (**parent).model());
                        }
                        let ghost outer = (**parent).model();
                        let ghost given = value@;
                        let r = parent.set(key, value);
                        proof {
                            assert(final(self).model() =~= seq![old(self).model()[0]]
                                + (**parent).model());
                            if assigned(outer, key@, given) is None {
                                assert(final(self).model() =~= old(self).model());
                            }
                        }
                        r
                    },
                    None => {
                        proof {
                            assert(self.model().drop_first() =~= Seq::<Scope>::empty());
                            assert(assigned(Seq::<Scope>::empty(), key@, value@) is None);
                        }
                        Err(())
                    },
                }
            },
        }
    }
}

impl View for Environment {
    type V = Seq<Scope>;

    closed spec fn view(&self) -> Seq<Scope> {
        self.model()
    }
}

} // verus!
