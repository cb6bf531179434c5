//! Runtime values: a tagged union of the empty value, booleans, numbers and
//! heap objects (strings and lists), together with the arithmetic, logic and
//! rendering rules the virtual machine delegates to.

use vstd::prelude::*;

use crate::error::ParseError;
use crate::ops::{Binary, Unary};

verus! {

broadcast use vstd::std_specs::vec::axiom_vec_index_decreases;

/// Spec-level shape of a runtime value. Strings and lists are abstracted to
/// sequences, so equality of models is structural all the way down.
pub enum ValueModel {
    Empty,
    Boolean(bool),
    Number(i64),
    Str(Seq<char>),
    List(Seq<ValueModel>),
}

/// Heap-allocated payload of an object value: a string or an extensible list.
#[derive(Debug)]
pub enum ObjectData {
    Str(String),
    List(Vec<Value>),
}

/// An object value owns its payload exclusively.
#[derive(Debug)]
pub struct Object(pub Box<ObjectData>);

/// A runtime value. Immutable once constructed; duplicated on stack traffic.
#[derive(Debug)]
pub enum Value {
    Empty,
    Boolean(bool),
    Number(i64),
    Object(Object),
}

impl View for Value {
    type V = ValueModel;

    open spec fn view(&self) -> ValueModel {
        value_model(*self)
    }
}

/// Model of a value.
pub open spec fn value_model(v: Value) -> ValueModel
    decreases v,
{
    match v {
        Value::Empty => ValueModel::Empty,
        Value::Boolean(b) => ValueModel::Boolean(b),
        Value::Number(n) => ValueModel::Number(n),
        Value::Object(obj) => match *obj.0 {
            ObjectData::Str(s) => ValueModel::Str(s@),
            ObjectData::List(l) => ValueModel::List(list_model(l@)),
        },
    }
}

/// Model of a list of values, element by element.
pub open spec fn list_model(s: Seq<Value>) -> Seq<ValueModel>
    decreases s,
{
    if s.len() == 0 {
        Seq::empty()
    } else {
        seq![value_model(s[0])] + list_model(s.subrange(1, s.len() as int))
    }
}

/// The model of a list keeps its length and models each element in place.
pub proof fn lemma_list_model(s: Seq<Value>)
    ensures
        list_model(s).len() == s.len(),
        forall|i: int| 0 <= i < s.len() ==> list_model(s)[i] == value_model(s[i]),
    decreases s.len(),
{
    if s.len() > 0 {
        lemma_list_model(s.subrange(1, s.len() as int));
    }
}

impl Object {
    /// An object is empty when its string has no characters or its list has
    /// no elements.
    pub fn is_empty(&self) -> (r: bool)
        ensures
            r == object_is_empty_model(*self),
    {
        match &*self.0 {
            ObjectData::Str(s) => s.as_str().unicode_len() == 0,
            ObjectData::List(l) => l.len() == 0,
        }
    }
}

/// Spec-level emptiness of an object.
pub open spec fn object_is_empty_model(obj: Object) -> bool {
    match *obj.0 {
        ObjectData::Str(s) => s@.len() == 0,
        ObjectData::List(l) => l@.len() == 0,
    }
}

/// Truthiness of a value model: the empty value is false, a boolean is
/// itself, a number is true exactly when positive, an object is true exactly
/// when its content is non-empty.
pub open spec fn truthy_model(m: ValueModel) -> bool {
    match m {
        ValueModel::Empty => false,
        ValueModel::Boolean(b) => b,
        ValueModel::Number(n) => n > 0,
        ValueModel::Str(s) => s.len() > 0,
        ValueModel::List(l) => l.len() > 0,
    }
}

impl Value {
    /// Truthiness of the value, as the spec model defines it.
    pub fn truthy(&self) -> (r: bool)
        ensures
            r == truthy_model(self@),
    {
        match self {
            Value::Empty => false,
            Value::Boolean(x) => *x,
            Value::Number(x) => *x > 0,
            Value::Object(obj) => !obj.is_empty(),
        }
    }

    /// Builds a string-object value.
    pub fn string(string: String) -> (r: Value)
        ensures
            r@ == ValueModel::Str(string@),
    {
        Value::Object(Object(Box::new(ObjectData::Str(string))))
    }

    /// Builds a list-object value.
    pub fn list(items: Vec<Value>) -> (r: Value)
        ensures
            r@ == ValueModel::List(list_model(items@)),
    {
        Value::Object(Object(Box::new(ObjectData::List(items))))
    }

    /// The kind tag of the value, as error reports name it.
    pub fn kind(&self) -> (r: ValueKind)
        ensures
            r == kind_of(self@),
    {
        match self {
            Value::Empty => ValueKind::Empty,
            Value::Boolean(_) => ValueKind::Boolean,
            Value::Number(_) => ValueKind::Number,
            Value::Object(_) => ValueKind::Object,
        }
    }

    /// Logical negation: defined on every value through its truthiness.
    pub fn not(self) -> (r: Value)
        ensures
            r@ == ValueModel::Boolean(!truthy_model(self@)),
    {
        Value::Boolean(!self.truthy())
    }

    /// Arithmetic negation: defined on numbers only.
    pub fn neg(self) -> (r: Result<Value, ParseError>)
        ensures
            value_result_model(r) == unary_result(Unary::Negate, self@),
    {
        match self {
            Value::Number(x) => Ok(Value::Number(0i64.wrapping_sub(x))),
            other => Err(ParseError::IllegalUnaryOperation(other.kind(), Unary::Negate)),
        }
    }

    /// Addition: defined between two numbers only; wraps on overflow.
    pub fn add(self, rhs: Value) -> (r: Result<Value, ParseError>)
        ensures
            value_result_model(r) == binary_result(Binary::Add, self@, rhs@),
    {
        match (&self, &rhs) {
            (Value::Number(a), Value::Number(b)) => Ok(Value::Number(a.wrapping_add(*b))),
            _ => Err(ParseError::IllegalBinaryOperation(self.kind(), rhs.kind(), Binary::Add)),
        }
    }

    /// Subtraction: defined between two numbers only; wraps on overflow.
    pub fn sub(self, rhs: Value) -> (r: Result<Value, ParseError>)
        ensures
            value_result_model(r) == binary_result(Binary::Subtract, self@, rhs@),
    {
        match (&self, &rhs) {
            (Value::Number(a), Value::Number(b)) => Ok(Value::Number(a.wrapping_sub(*b))),
            _ => Err(
                ParseError::IllegalBinaryOperation(self.kind(), rhs.kind(), Binary::Subtract),
            ),
        }
    }

    /// Multiplication: defined between two numbers only; wraps on overflow.
    pub fn mul(self, rhs: Value) -> (r: Result<Value, ParseError>)
        ensures
            value_result_model(r) == binary_result(Binary::Multiply, self@, rhs@),
    {
        match (&self, &rhs) {
            (Value::Number(a), Value::Number(b)) => Ok(Value::Number(a.wrapping_mul(*b))),
            _ => Err(
                ParseError::IllegalBinaryOperation(self.kind(), rhs.kind(), Binary::Multiply),
            ),
        }
    }

    /// Truncating division: defined between two numbers only; a zero divisor
    /// is an error; the one overflowing quotient wraps.
    pub fn div(self, rhs: Value) -> (r: Result<Value, ParseError>)
        ensures
            value_result_model(r) == binary_result(Binary::Divide, self@, rhs@),
    {
        match (&self, &rhs) {
            (Value::Number(a), Value::Number(b)) => {
                if *b == 0 {
                    Err(ParseError::DivisionByZero(Binary::Divide))
                } else {
                    match a.checked_div(*b) {
                        Some(q) => Ok(Value::Number(q)),
                        None => Ok(Value::Number(i64::MIN)),
                    }
                }
            },
            _ => Err(ParseError::IllegalBinaryOperation(self.kind(), rhs.kind(), Binary::Divide)),
        }
    }

    /// Truncating remainder: defined between two numbers only; a zero divisor
    /// is an error; the one overflowing case yields zero.
    pub fn rem(self, rhs: Value) -> (r: Result<Value, ParseError>)
        ensures
            value_result_model(r) == binary_result(Binary::Modulo, self@, rhs@),
    {
        match (&self, &rhs) {
            (Value::Number(a), Value::Number(b)) => {
                if *b == 0 {
                    Err(ParseError::DivisionByZero(Binary::Modulo))
                } else {
                    match a.checked_rem(*b) {
                        Some(q) => Ok(Value::Number(q)),
                        None => Ok(Value::Number(0)),
                    }
                }
            },
            _ => Err(ParseError::IllegalBinaryOperation(self.kind(), rhs.kind(), Binary::Modulo)),
        }
    }

    /// Applies a binary operator to two values, as the operator evaluation
    /// instruction does.
    pub fn apply_binary(self, rhs: Value, op: Binary) -> (r: Result<Value, ParseError>)
        ensures
            value_result_model(r) == binary_result(op, self@, rhs@),
    {
        match op {
            Binary::Add => self.add(rhs),
            Binary::Subtract => self.sub(rhs),
            Binary::Multiply => self.mul(rhs),
            Binary::Divide => self.div(rhs),
            Binary::Modulo => self.rem(rhs),
        }
    }

    /// Applies a unary operator to a value.
    pub fn apply_unary(self, op: Unary) -> (r: Result<Value, ParseError>)
        ensures
            value_result_model(r) == unary_result(op, self@),
    {
        match op {
            Unary::Not => Ok(self.not()),
            Unary::Negate => self.neg(),
        }
    }
}

/// The kind tag of a value, used by error reports.
#[derive(Debug, Clone, Copy, PartialEq, Eq, Structural)]
pub enum ValueKind {
    Empty,
    Boolean,
    Number,
    Object,
}

/// Kind tag of a value model.
pub open spec fn kind_of(m: ValueModel) -> ValueKind {
    match m {
        ValueModel::Empty => ValueKind::Empty,
        ValueModel::Boolean(_) => ValueKind::Boolean,
        ValueModel::Number(_) => ValueKind::Number,
        ValueModel::Str(_) => ValueKind::Object,
        ValueModel::List(_) => ValueKind::Object,
    }
}

/// Lifts an operation result to the model level: the payload of `Ok`
/// becomes its model, the error stands as it is.
pub open spec fn value_result_model(r: Result<Value, ParseError>) -> Result<
    ValueModel,
    ParseError,
> {
    match r {
        Ok(v) => Ok(v@),
        Err(e) => Err(e),
    }
}

/// What a binary operator yields on two value models: the operator semantics
/// between two numbers (wrapping on the one overflowing case each operator
/// has), a zero-divisor error for division and remainder, and an
/// illegal-operation error naming both operand kinds and the operator for
/// every other combination.
pub open spec fn binary_result(op: Binary, a: ValueModel, b: ValueModel) -> Result<
    ValueModel,
    ParseError,
> {
    match (a, b) {
        (ValueModel::Number(x), ValueModel::Number(y)) => match op {
            Binary::Add => Ok(ValueModel::Number(x.wrapping_add(y))),
            Binary::Subtract => Ok(ValueModel::Number(x.wrapping_sub(y))),
            Binary::Multiply => Ok(ValueModel::Number(x.wrapping_mul(y))),
            Binary::Divide => if y == 0 {
                Err(ParseError::DivisionByZero(Binary::Divide))
            } else {
                match x.checked_div(y) {
                    Some(q) => Ok(ValueModel::Number(q)),
                    None => Ok(ValueModel::Number(i64::MIN)),
                }
            },
            Binary::Modulo => if y == 0 {
                Err(ParseError::DivisionByZero(Binary::Modulo))
            } else {
                match x.checked_rem(y) {
                    Some(q) => Ok(ValueModel::Number(q)),
                    None => Ok(ValueModel::Number(0)),
                }
            },
        },
        _ => Err(ParseError::IllegalBinaryOperation(kind_of(a), kind_of(b), op)),
    }
}

/// What a unary operator yields on a value model: logical negation works on
/// everything through truthiness; arithmetic negation only on a number.
pub open spec fn unary_result(op: Unary, a: ValueModel) -> Result<ValueModel, ParseError> {
    match op {
        Unary::Not => Ok(ValueModel::Boolean(!truthy_model(a))),
        Unary::Negate => match a {
            ValueModel::Number(x) => Ok(ValueModel::Number(0i64.wrapping_sub(x))),
            _ => Err(ParseError::IllegalUnaryOperation(kind_of(a), Unary::Negate)),
        },
    }
}

impl Value {
    /// Duplicates the value; values are cloned by value on stack traffic.
    pub fn dup(&self) -> (r: Value)
        ensures
            r@ == self@,
        decreases self,
    {
        match self {
            Value::Empty => Value::Empty,
            Value::Boolean(b) => Value::Boolean(*b),
            Value::Number(n) => Value::Number(*n),
            Value::Object(obj) => match &*obj.0 {
                ObjectData::Str(s) => Value::Object(Object(Box::new(ObjectData::Str(s.clone())))),
                ObjectData::List(l) => {
                    let mut items: Vec<Value> = Vec::new();
                    let mut j: usize = 0;
                    while j < l.len()
                        invariant
                            *self == Value::Object(*obj),
                            *obj.0 == ObjectData::List(*l),
                            j <= l.len(),
                            items@.len() == j,
                            forall|k: int|
                                0 <= k < j ==> value_model(items@[k]) == value_model(l@[k]),
                        decreases l.len() - j,
                    {
                        proof {
                            let v = *self;
                            if let Value::Object(o) = v {
                                if let ObjectData::List(ll) = *o.0 {
                                    assert(decreases_to!(v => o));
                                    assert(decreases_to!(o => o.0));
                                    assert(decreases_to!(o.0 => ll));
                                    assert(decreases_to!(ll => ll@));
                                    assert(ll == *l);
                                    assert(decreases_to!(ll@ => ll@[j as int]));
                                    assert(decreases_to!(*self => l@[j as int]));
                                }
                            }
                        }
                        let e = l[j].dup();
                        items.push(e);
                        j += 1;
                    }
                    proof {
                        lemma_list_model(items@);
                        lemma_list_model(l@);
                        assert(list_model(items@) =~= list_model(l@));
                    }
                    Value::Object(Object(Box::new(ObjectData::List(items))))
                },
            },
        }
    }
}

/// The decimal digit character for one digit.
pub open spec fn digit_char(d: nat) -> char {
    if d == 0 {
        '0'
    } else if d == 1 {
        '1'
    } else if d == 2 {
        '2'
    } else if d == 3 {
        '3'
    } else if d == 4 {
        '4'
    } else if d == 5 {
        '5'
    } else if d == 6 {
        '6'
    } else if d == 7 {
        '7'
    } else if d == 8 {
        '8'
    } else {
        '9'
    }
}

/// Decimal digits of a natural number, most significant first.
pub open spec fn nat_chars(n: nat) -> Seq<char>
    decreases n,
{
    if n < 10 {
        seq![digit_char(n)]
    } else {
        nat_chars(n / 10).push(digit_char(n % 10))
    }
}

/// Decimal rendering of an integer, with a leading minus sign if negative.
pub open spec fn int_chars(n: int) -> Seq<char> {
    if n < 0 {
        seq!['-'] + nat_chars((-n) as nat)
    } else {
        nat_chars(n as nat)
    }
}

/// The display form of a value model: the empty value and booleans render as
/// fixed words, numbers in decimal, strings as their characters, and lists
/// bracketed with comma-separated elements.
pub open spec fn render_model(m: ValueModel) -> Seq<char>
    decreases m,
{
    match m {
        ValueModel::Empty => "<Empty>"@,
        ValueModel::Boolean(b) => if b {
            "true"@
        } else {
            "false"@
        },
        ValueModel::Number(n) => int_chars(n as int),
        ValueModel::Str(s) => s,
        ValueModel::List(l) => seq!['['] + render_items(l) + seq![']'],
    }
}

/// Renders the elements of a list, separated by comma and space.
pub open spec fn render_items(l: Seq<ValueModel>) -> Seq<char>
    decreases l, 1int,
{
    if l.len() == 0 {
        Seq::empty()
    } else {
        render_model(l[0]) + render_rest(l.subrange(1, l.len() as int))
    }
}

/// Renders the tail of a list: each element preceded by the separator.
pub open spec fn render_rest(l: Seq<ValueModel>) -> Seq<char>
    decreases l, 2int,
{
    if l.len() == 0 {
        Seq::empty()
    } else {
        ", "@ + render_model(l[0]) + render_rest(l.subrange(1, l.len() as int))
    }
}

/// Appending one element extends the rendered tail by one separated item.
proof fn lemma_render_rest_push(s: Seq<ValueModel>, x: ValueModel)
    ensures
        render_rest(s.push(x)) == render_rest(s) + ", "@ + render_model(x),
    decreases s.len(),
{
    if s.len() == 0 {
        let l2 = s.push(x);
        assert(l2.subrange(1, 1) =~= Seq::<ValueModel>::empty());
        assert(render_rest(Seq::<ValueModel>::empty()) == Seq::<char>::empty());
        assert(l2[0] == x);
        assert(render_rest(l2) == ", "@ + render_model(l2[0]) + render_rest(l2.subrange(1, 1)));
        assert(render_rest(s.push(x)) =~= ", "@ + render_model(x));
        assert(render_rest(s) + ", "@ + render_model(x) =~= ", "@ + render_model(x));
    } else {
        assert(s.push(x).subrange(1, s.len() as int + 1) =~= s.subrange(1, s.len() as int).push(x));
        lemma_render_rest_push(s.subrange(1, s.len() as int), x);
        assert(render_rest(s.push(x)) =~= render_rest(s) + ", "@ + render_model(x));
    }
}

/// Appending one element extends the rendered item list by that item, with a
/// separator unless it is the first.
proof fn lemma_render_items_push(s: Seq<ValueModel>, x: ValueModel)
    ensures
        s.len() == 0 ==> render_items(s.push(x)) == render_model(x),
        s.len() > 0 ==> render_items(s.push(x)) == render_items(s) + ", "@ + render_model(x),
{
    if s.len() == 0 {
        assert(s.push(x).subrange(1, 1) =~= Seq::<ValueModel>::empty());
        assert(render_items(s.push(x)) =~= render_model(x));
    } else {
        assert(s.push(x).subrange(1, s.len() as int + 1) =~= s.subrange(1, s.len() as int).push(x));
        lemma_render_rest_push(s.subrange(1, s.len() as int), x);
        assert(render_items(s.push(x)) =~= render_items(s) + ", "@ + render_model(x));
    }
}

/// Maps one decimal digit to its character, as string text.
fn digit_str(d: u64) -> (r: &'static str)
    requires
        d < 10,
    ensures
        r@ == seq![digit_char(d as nat)],
{
    proof {
        reveal_strlit("0");
        reveal_strlit("1");
        reveal_strlit("2");
        reveal_strlit("3");
        reveal_strlit("4");
        reveal_strlit("5");
        reveal_strlit("6");
        reveal_strlit("7");
        reveal_strlit("8");
        reveal_strlit("9");
    }
    let s = match d {
        0 => "0",
        1 => "1",
        2 => "2",
        3 => "3",
        4 => "4",
        5 => "5",
        6 => "6",
        7 => "7",
        8 => "8",
        _ => "9",
    };
    proof {
        assert(s@ =~= seq![digit_char(d as nat)]);
    }
    s
}

/// Renders an unsigned number in decimal.
fn render_u64(n: u64) -> (r: String)
    ensures
        r@ == nat_chars(n as nat),
    decreases n,
{
    if n < 10 {
        String::from_str(digit_str(n))
    } else {
        let mut s = render_u64(n / 10);
        s.append(digit_str(n % 10));
        proof {
            assert(s@ =~= nat_chars(n as nat));
        }
        s
    }
}

/// Renders a signed number in decimal, with a leading minus sign if negative.
pub fn render_number(n: i64) -> (r: String)
    ensures
        r@ == int_chars(n as int),
{
    if n >= 0 {
        render_u64(n as u64)
    } else {
        let mag: u64 = if n == i64::MIN {
            9223372036854775808u64
        } else {
            (-n) as u64
        };
        let mut s = String::from_str("-");
        let digits = render_u64(mag);
        s.append(digits.as_str());
        proof {
            reveal_strlit("-");
            assert(s@ =~= int_chars(n as int));
        }
        s
    }
}

impl Value {
    /// The display form of the value, as the rendering model defines it.
    pub fn render(&self) -> (r: String)
        ensures
            r@ == render_model(self@),
        decreases self,
    {
        match self {
            Value::Empty => String::from_str("<Empty>"),
            Value::Boolean(b) => if *b {
                String::from_str("true")
            } else {
                String::from_str("false")
            },
            Value::Number(n) => render_number(*n),
            Value::Object(obj) => match &*obj.0 {
                ObjectData::Str(s) => s.clone(),
                ObjectData::List(l) => {
                    let ghost m = list_model(l@);
                    proof {
                        lemma_list_model(l@);
                    }
                    let mut out = String::from_str("[");
                    let mut j: usize = 0;
                    while j < l.len()
                        invariant
                            *self == Value::Object(*obj),
                            *obj.0 == ObjectData::List(*l),
                            m == list_model(l@),
                            m.len() == l@.len(),
                            forall|k: int| 0 <= k < l@.len() ==> m[k] == value_model(l@[k]),
                            j <= l.len(),
                            out@ == "["@ + render_items(m.take(j as int)),
                        decreases l.len() - j,
                    {
                        proof {
                            let v = *self;
                            if let Value::Object(o) = v {
                                if let ObjectData::List(ll) = *o.0 {
                                    assert(decreases_to!(v => o));
                                    assert(decreases_to!(o => o.0));
                                    assert(decreases_to!(o.0 => ll));
                                    assert(decreases_to!(ll => ll@));
                                    assert(ll == *l);
                                    assert(decreases_to!(ll@ => ll@[j as int]));
                                    assert(decreases_to!(*self => l@[j as int]));
                                }
                            }
                        }
                        if j > 0 {
                            out.append(", ");
                        }
                        let piece = l[j].render();
                        out.append(piece.as_str());
                        proof {
                            reveal_strlit(", ");
                            assert(m.take(j + 1 as int) =~= m.take(j as int).push(m[j as int]));
                            lemma_render_items_push(m.take(j as int), m[j as int]);
                            assert(out@ =~= "["@ + render_items(m.take(j + 1 as int)));
                        }
                        j += 1;
                    }
                    out.append("]");
                    proof {
                        reveal_strlit("[");
                        reveal_strlit("]");
                        assert(m.take(l@.len() as int) =~= m);
                        assert(out@ =~= seq!['['] + render_items(m) + seq![']']);
                    }
                    out
                },
            },
        }
    }
}

impl Value {
    /// Structural equality of two values: same kind, same content, lists
    /// element by element.
    pub fn equals(&self, other: &Value) -> (r: bool)
        ensures
            r == (self@ == other@),
        decreases self,
    {
        match (self, other) {
            (Value::Empty, Value::Empty) => true,
            (Value::Boolean(a), Value::Boolean(b)) => *a == *b,
            (Value::Number(a), Value::Number(b)) => *a == *b,
            (Value::Object(a), Value::Object(b)) => match (&*a.0, &*b.0) {
                (ObjectData::Str(x), ObjectData::Str(y)) => *x == *y,
                (ObjectData::List(x), ObjectData::List(y)) => {
                    proof {
                        lemma_list_model(x@);
                        lemma_list_model(y@);
                    }
                    if x.len() != y.len() {
                        proof {
                            assert(list_model(x@).len() != list_model(y@).len());
                        }
                        return false;
                    }
                    let mut j: usize = 0;
                    while j < x.len()
                        invariant
                            *self == Value::Object(*a),
                            *a.0 == ObjectData::List(*x),
                            *other == Value::Object(*b),
                            *b.0 == ObjectData::List(*y),
                            x@.len() == y@.len(),
                            j <= x@.len(),
                            forall|k: int|
                                0 <= k < j ==> value_model(x@[k]) == value_model(y@[k]),
                        decreases x@.len() - j,
                    {
                        proof {
                            let v = *self;
                            if let Value::Object(o) = v {
                                if let ObjectData::List(ll) = *o.0 {
                                    assert(decreases_to!(v => o));
                                    assert(decreases_to!(o => o.0));
                                    assert(decreases_to!(o.0 => ll));
                                    assert(decreases_to!(ll => ll@));
                                    assert(ll == *x);
                                    assert(decreases_to!(ll@ => ll@[j as int]));
                                    assert(decreases_to!(*self => x@[j as int]));
                                }
                            }
                        }
                        if !x[j].equals(&y[j]) {
                            proof {
                                lemma_list_model(x@);
                                lemma_list_model(y@);
                                assert(list_model(x@)[j as int] != list_model(y@)[j as int]);
                            }
                            return false;
                        }
                        j += 1;
                    }
                    proof {
                        lemma_list_model(x@);
                        lemma_list_model(y@);
                        assert(list_model(x@) =~= list_model(y@));
                    }
                    true
                },
                _ => false,
            },
            _ => false,
        }
    }
}

impl PartialEq for Value {
    /// Values compare structurally, through their models.
    fn eq(&self, other: &Value) -> (r: bool) {
        self.equals(other)
    }
}

impl vstd::std_specs::cmp::PartialEqSpecImpl for Value {
    open spec fn obeys_eq_spec() -> bool {
        true
    }

    open spec fn eq_spec(&self, other: &Value) -> bool {
        self@ == other@
    }
}

} // verus!
