//! Runtime values of the interpreted language.
//!
//! A `Data` value is the result of evaluating an expression: an integer, a
//! piece of text, or an array of further values. `DataS` is its mathematical
//! shape, used by every contract in this crate.

use vstd::prelude::*;

verus! {

/// A runtime value: the closed union of the three value kinds the language has.
#[derive(Debug, PartialEq)]
pub enum Data {
    String(String),
    Int(i64),
    Array(Vec<Data>),
}

/// The mathematical shape of a runtime value.
pub ghost enum DataS {
    Str(Seq<char>),
    Int(int),
    Arr(Seq<DataS>),
}

impl Data {
    /// The mathematical value this runtime value stands for.
    pub open spec fn deep(self) -> DataS
        decreases self,
    {
        match self {
            Data::String(s) => DataS::Str(s@),
            Data::Int(i) => DataS::Int(i as int),
            Data::Array(vs) => DataS::Arr(deep_data_seq(vs@)),
        }
    }
}

/// The mathematical values of a sequence of runtime values, element by element.
pub open spec fn deep_data_seq(vs: Seq<Data>) -> Seq<DataS>
    decreases vs,
{
    if vs.len() == 0 {
        Seq::empty()
    } else {
        seq![vs[0].deep()] + deep_data_seq(vs.drop_first())
    }
}

pub broadcast proof fn lemma_deep_data_seq(vs: Seq<Data>)
    ensures
        #![trigger deep_data_seq(vs)]
        deep_data_seq(vs).len() == vs.len(),
        forall|i: int| 0 <= i < vs.len() ==> deep_data_seq(vs)[i] == vs[i].deep(),
    decreases vs,
{
    if vs.len() > 0 {
        lemma_deep_data_seq(vs.drop_first());
    }
}

impl vstd::prelude::DeepView for Data {
    type V = DataS;

    open spec fn deep_view(&self) -> DataS {
        self.deep()
    }
}

impl Data {
    /// The integer a value holds. Text and array values are excluded here;
    /// [`Data::as_int`] is the total narrowing that reports them as a
    /// typed error instead.
    pub fn as_float(&self) -> (r: i64)
        requires
            self.deep() is Int,
        ensures
            self.deep() == DataS::Int(r as int),
    {
        match self {
            Data::Int(i) => *i,
            _ => unreached(),
        }
    }

    /// The text of an integer or string value. Arrays are excluded here;
    /// [`Data::as_text`] is the total narrowing that reports them as a
    /// typed error, and printing renders them through [`render_data_x`].
    pub fn as_string(&self) -> (r: String)
        requires
            self.deep() is Int || self.deep() is Str,
        ensures
            r@ == render_data(self.deep()),
    {
        match self {
            Data::Int(i) => int_to_string(*i),
            Data::String(s) => s.clone(),
            _ => unreached(),
        }
    }
}

impl Data {
    /// Narrows a value to its integer, totally: text and array values
    /// yield a `TypeMismatch` error instead, exactly.
    pub fn as_int(&self) -> (r: Result<i64, crate::semantics::EvalError>)
        ensures
            match r {
                Ok(i) => self.deep() == DataS::Int(i as int),
                Err(e) => e == crate::semantics::EvalError::TypeMismatch && !(self.deep()
                    is Int),
            },
    {
        match self {
            Data::Int(i) => Ok(*i),
            _ => Err(crate::semantics::EvalError::TypeMismatch),
        }
    }

    /// Narrows a value to its plain text, totally: integers in decimal,
    /// text verbatim; an array yields a `TypeMismatch` error instead,
    /// exactly. Printing renders arrays through [`render_data_x`].
    pub fn as_text(&self) -> (r: Result<String, crate::semantics::EvalError>)
        ensures
            match r {
                Ok(s) => !(self.deep() is Arr) && s@ == render_data(self.deep()),
                Err(e) => e == crate::semantics::EvalError::TypeMismatch && self.deep() is Arr,
            },
    {
        match self {
            Data::Int(i) => Ok(int_to_string(*i)),
            Data::String(s) => Ok(s.clone()),
            Data::Array(_) => Err(crate::semantics::EvalError::TypeMismatch),
        }
    }
}

/// The decimal digits of `n`, most significant first.
pub open spec fn dec_digits(n: nat) -> Seq<char>
    decreases n,
{
    if n < 10 {
        seq![digit_char(n)]
    } else {
        dec_digits(n / 10).push(digit_char(n % 10))
    }
}

/// The decimal character for a single digit.
pub open spec fn digit_char(d: nat) -> char {
    if d == 0 {
        '0'
    } else if d == 1 {
        '1'
    } else if d == 2 {
        '2'
    } else if d == 3 {
        '3'
    } else if d == 4 {
        '4'
    } else if d == 5 {
        '5'
    } else if d == 6 {
        '6'
    } else if d == 7 {
        '7'
    } else if d == 8 {
        '8'
    } else {
        '9'
    }
}

/// The decimal text of a signed integer: a minus sign for negative numbers,
/// then the digits of the magnitude.
pub open spec fn render_int(n: int) -> Seq<char> {
    if n >= 0 {
        dec_digits(n as nat)
    } else {
        seq!['-'] + dec_digits((-n) as nat)
    }
}

/// The text a value prints as: integers in decimal, text verbatim, arrays
/// element by element between brackets, separated by comma and space.
pub open spec fn render_data(d: DataS) -> Seq<char>
    decreases d, 0int,
{
    match d {
        DataS::Int(n) => render_int(n),
        DataS::Str(s) => s,
        DataS::Arr(es) => seq!['['] + render_elems(es, 0) + seq![']'],
    }
}

/// The joined rendering of array elements from position `i` on.
pub open spec fn render_elems(es: Seq<DataS>, i: int) -> Seq<char>
    recommends
        0 <= i <= es.len(),
    decreases es, es.len() - i + 1,
{
    if i < 0 || i >= es.len() {
        Seq::empty()
    } else if i == es.len() - 1 {
        render_data(es[i])
    } else {
        render_data(es[i]) + seq![',', ' '] + render_elems(es, i + 1)
    }
}

fn digit_char_x(d: u64) -> (c: char)
    requires
        d < 10,
    ensures
        c == digit_char(d as nat),
{
    if d == 0 {
        '0'
    } else if d == 1 {
        '1'
    } else if d == 2 {
        '2'
    } else if d == 3 {
        '3'
    } else if d == 4 {
        '4'
    } else if d == 5 {
        '5'
    } else if d == 6 {
        '6'
    } else if d == 7 {
        '7'
    } else if d == 8 {
        '8'
    } else {
        '9'
    }
}

fn push_digits(s: &mut String, n: u64)
    ensures
        final(s)@ == old(s)@ + dec_digits(n as nat),
    decreases n,
{
    if n < 10 {
        push_char(s, digit_char_x(n));
    } else {
        push_digits(s, n / 10);
        push_char(s, digit_char_x(n % 10));
    }
}

/// Relies on `String::push` of std: appends the given character to the end of
/// the string.
#[verifier::external_body]
pub(crate) fn push_char(s: &mut String, c: char)
    ensures
        final(s)@ == old(s)@.push(c),
{
    s.push(c);
}

/// A copy of a value that stands for the same mathematical value.
pub fn clone_data(d: &Data) -> (r: Data)
    ensures
        r.deep() == d.deep(),
    decreases d,
{
    match d {
        Data::Int(n) => Data::Int(*n),
        Data::String(s) => Data::String(s.clone()),
        Data::Array(es) => Data::Array(clone_data_vec(es)),
    }
}

/// A copy of a value sequence, value for value.
pub fn clone_data_vec(es: &Vec<Data>) -> (r: Vec<Data>)
    ensures
        deep_data_seq(r@) == deep_data_seq(es@),
        r@.len() == es@.len(),
    decreases es@,
{
    let mut r: Vec<Data> = Vec::new();
    let mut i: usize = 0;
    while i < es.len()
        invariant
            i <= es@.len(),
            r@.len() == i,
            forall|j: int| 0 <= j < i ==> r@[j].deep() == es@[j].deep(),
        decreases es@.len() - i,
    {
        let c = clone_data(&es[i]);
        r.push(c);
        i = i + 1;
    }
    proof {
        lemma_data_seq_pointwise(r@, es@);
    }
    r
}

/// Two value sequences whose elements stand for the same mathematical values
/// have the same sequence of mathematical values.
pub proof fn lemma_data_seq_pointwise(a: Seq<Data>, b: Seq<Data>)
    requires
        a.len() == b.len(),
        forall|j: int| 0 <= j < a.len() ==> a[j].deep() == b[j].deep(),
    ensures
        deep_data_seq(a) == deep_data_seq(b),
    decreases a,
{
    if a.len() > 0 {
        lemma_data_seq_pointwise(a.drop_first(), b.drop_first());
        assert(deep_data_seq(a) =~= deep_data_seq(b));
    } else {
        assert(deep_data_seq(a) =~= deep_data_seq(b));
    }
}

/// The printed text of a value, as executable code.
pub fn render_data_x(d: &Data) -> (r: String)
    ensures
        r@ == render_data(d.deep()),
    decreases d, 0int,
{
    match d {
        Data::Int(n) => int_to_string(*n),
        Data::String(s) => s.clone(),
        Data::Array(es) => {
            let mut s = String::new();
            push_char(&mut s, '[');
            render_elems_x(es, 0, &mut s);
            push_char(&mut s, ']');
            proof {
                broadcast use lemma_deep_data_seq;

                assert(s@ =~= render_data(d.deep()));
            }
            s
        },
    }
}

fn render_elems_x(es: &Vec<Data>, i: usize, out: &mut String)
    requires
        i <= es@.len(),
    ensures
        final(out)@ == old(out)@ + render_elems(deep_data_seq(es@), i as int),
    decreases es@, es@.len() - i + 1,
{
    proof {
        broadcast use lemma_deep_data_seq;
    }
    if i >= es.len() {
        proof {
            assert(old(out)@ + render_elems(deep_data_seq(es@), i as int) =~= old(out)@);
        }
    } else {
        let piece = render_data_x(&es[i]);
        out.append(piece.as_str());
        if i < es.len() - 1 {
            push_char(out, ',');
            push_char(out, ' ');
            render_elems_x(es, i + 1, out);
        }
        proof {
            assert(out@ =~= old(out)@ + render_elems(deep_data_seq(es@), i as int));
        }
    }
}

/// The decimal text of an integer, as executable code.
pub fn int_to_string(n: i64) -> (r: String)
    ensures
        r@ == render_int(n as int),
{
    let mut s = String::new();
    let mag: u64 = if n >= 0 {
        n as u64
    } else {
        proof {
            assert(-(n as i128) <= 0x8000_0000_0000_0000_i128);
        }
        (-(n as i128)) as u64
    };
    if n < 0 {
        push_char(&mut s, '-');
    }
    push_digits(&mut s, mag);
    proof {
        assert(s@ =~= render_int(n as int));
    }
    s
}

} // verus!
