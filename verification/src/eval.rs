//! The executable evaluator, proved against the semantics in
//! [`crate::semantics`].

use vstd::prelude::*;
use vstd::string::StrSliceExecFns;
use vstd::string::StringExecFns;

use crate::ast::Ast;
use crate::ast::FnDef;
use crate::ast::clone_fndef;
use crate::ast::deep_ast_seq;
use crate::ast::param_names;
use crate::data::Data;
use crate::data::DataS;
use crate::data::clone_data;
use crate::data::deep_data_seq;
use crate::data::render_data;
use crate::data::render_data_x;
use crate::semantics::ArgsOutS;
use crate::semantics::CallOutS;
use crate::semantics::EvalError;
use crate::semantics::ExprOutS;
use crate::semantics::FieldsOutS;
use crate::semantics::StateS;
use crate::semantics::StmtOutS;
use crate::semantics::apply_builtin;
use crate::semantics::bind_params;
use crate::semantics::digits_val;
use crate::semantics::lemma_digits_take_mono;
use crate::semantics::eval_args_s;
use crate::semantics::eval_call_s;
use crate::semantics::eval_expr_s;
use crate::semantics::exec_stmt_s;
use crate::semantics::exec_stmts_s;
use crate::semantics::is_builtin_name;
use crate::semantics::is_digit_char;
use crate::semantics::next_delim;
use crate::semantics::lemma_next_delim;
use crate::semantics::parse_int_line;
use crate::semantics::read_fields;
use crate::semantics::read_line;
use crate::semantics::render_all;
use crate::semantics::run_for_s;
use crate::semantics::split_pieces;
use crate::strmap::StrMap;
use crate::strmap::lemma_map_of_pointwise;
use crate::strmap::string_eq;

verus! {

broadcast use crate::ast::lemma_deep_ast_seq, crate::data::lemma_deep_data_seq;

/// The input lines not yet read and the output lines written so far.
pub struct Io {
    pub input: Vec<String>,
    pub output: Vec<String>,
}

impl Io {
    /// The input lines still to be read.
    pub open spec fn in_v(&self) -> Seq<Seq<char>> {
        self.input.deep_view()
    }

    /// The output lines written so far.
    pub open spec fn out_v(&self) -> Seq<Seq<char>> {
        self.output.deep_view()
    }
}

/// The interpreter state an environment, a registry and an `Io` stand for.
pub open spec fn st_of(
    env: Map<Seq<char>, DataS>,
    funcs: Map<Seq<char>, crate::ast::FnDefS>,
    io: Io,
) -> StateS {
    StateS { env, funcs, input: io.in_v(), output: io.out_v() }
}

/// The outcome of evaluating one expression.
#[derive(Debug, PartialEq)]
pub enum EvalOut {
    Val(Data),
    Halt(i64),
    Fail(EvalError),
}

/// The outcome of evaluating an argument list.
#[derive(Debug, PartialEq)]
pub enum ArgsOut {
    Vals(Vec<Data>),
    Halt(i64),
    Fail(EvalError),
}

/// The outcome of executing a statement or a statement sequence.
#[derive(Debug, PartialEq)]
pub enum StmtOut {
    Next,
    Halt(i64),
    Fail(EvalError),
}

/// The outcome of a call before its context interprets it.
#[derive(Debug, PartialEq)]
pub enum CallOut {
    Val(Data),
    Unit,
    Halt(i64),
    Fail(EvalError),
}

/// The outcome of reading `inputf` fields.
#[derive(Debug, PartialEq)]
pub enum FieldsOut {
    Vals(Vec<Data>),
    Fail(EvalError),
}

/// Whether an executable expression outcome and a final state agree with a
/// semantic outcome.
pub open spec fn expr_matches(
    o: ExprOutS,
    r: EvalOut,
    env: Map<Seq<char>, DataS>,
    funcs: Map<Seq<char>, crate::ast::FnDefS>,
    io: Io,
) -> bool {
    match (o, r) {
        (ExprOutS::Val(st, v), EvalOut::Val(rv)) => st == st_of(env, funcs, io) && v == rv.deep(),
        (ExprOutS::Halt(st, c), EvalOut::Halt(rc)) => st == st_of(env, funcs, io) && c == rc as int,
        (ExprOutS::Fail(st, e), EvalOut::Fail(re)) => st == st_of(env, funcs, io) && e == re,
        _ => false,
    }
}

/// Whether an executable argument-list outcome agrees with a semantic one.
pub open spec fn args_matches(
    o: ArgsOutS,
    r: ArgsOut,
    env: Map<Seq<char>, DataS>,
    funcs: Map<Seq<char>, crate::ast::FnDefS>,
    io: Io,
) -> bool {
    match (o, r) {
        (ArgsOutS::Vals(st, vs), ArgsOut::Vals(rv)) => st == st_of(env, funcs, io)
            && vs == deep_data_seq(rv@),
        (ArgsOutS::Halt(st, c), ArgsOut::Halt(rc)) => st == st_of(env, funcs, io)
            && c == rc as int,
        (ArgsOutS::Fail(st, e), ArgsOut::Fail(re)) => st == st_of(env, funcs, io) && e == re,
        _ => false,
    }
}

/// Whether an executable statement outcome agrees with a semantic one.
pub open spec fn stmt_matches(
    o: StmtOutS,
    r: StmtOut,
    env: Map<Seq<char>, DataS>,
    funcs: Map<Seq<char>, crate::ast::FnDefS>,
    io: Io,
) -> bool {
    match (o, r) {
        (StmtOutS::Next(st), StmtOut::Next) => st == st_of(env, funcs, io),
        (StmtOutS::Halt(st, c), StmtOut::Halt(rc)) => st == st_of(env, funcs, io)
            && c == rc as int,
        (StmtOutS::Fail(st, e), StmtOut::Fail(re)) => st == st_of(env, funcs, io) && e == re,
        _ => false,
    }
}

/// Whether an executable call outcome agrees with a semantic one.
pub open spec fn call_matches(
    o: CallOutS,
    r: CallOut,
    env: Map<Seq<char>, DataS>,
    funcs: Map<Seq<char>, crate::ast::FnDefS>,
    io: Io,
) -> bool {
    match (o, r) {
        (CallOutS::Val(st, v), CallOut::Val(rv)) => st == st_of(env, funcs, io) && v == rv.deep(),
        (CallOutS::Unit(st), CallOut::Unit) => st == st_of(env, funcs, io),
        (CallOutS::Halt(st, c), CallOut::Halt(rc)) => st == st_of(env, funcs, io) && c == rc as int,
        (CallOutS::Fail(st, e), CallOut::Fail(re)) => st == st_of(env, funcs, io) && e == re,
        _ => false,
    }
}

/// Whether a string holds exactly the given text.
fn str_is(a: &String, b: &str) -> (r: bool)
    ensures
        r == (a@ == b@),
{
    let bs = String::from_str(b);
    string_eq(a, &bs)
}

/// Whether a name belongs to the built-in table, as executable code.
pub fn is_builtin_x(id: &String) -> (r: bool)
    ensures
        r == is_builtin_name(id@),
{
    str_is(id, "print") || str_is(id, "return") || str_is(id, "input") || str_is(id, "inputf")
        || str_is(id, "split")
}

/// Reads the next input line; a missing line reads as empty text.
fn read_line_x(io: &mut Io) -> (line: String)
    ensures
        line@ == read_line(old(io).in_v()).1,
        final(io).in_v() == read_line(old(io).in_v()).0,
        final(io).out_v() == old(io).out_v(),
{
    if io.input.len() == 0 {
        String::new()
    } else {
        let l = io.input.remove(0);
        proof {
            assert(io.in_v() =~= old(io).in_v().drop_first());
        }
        l
    }
}

/// Parses a whole line as a 64-bit integer: an optional minus sign, then at
/// least one decimal digit and nothing else, with the value in range.
fn parse_int_line_x(s: &String) -> (r: Option<i64>)
    ensures
        match r {
            Some(v) => parse_int_line(s@) == Some(v as int),
            None => parse_int_line(s@) == None::<int> || (parse_int_line(s@) matches Some(n) && (n
                > i64::MAX as int || n < i64::MIN as int)),
        },
{
    let st = s.as_str();
    let len = st.unicode_len();
    let neg = len > 0 && st.get_char(0) == '-';
    let start: usize = if neg {
        1
    } else {
        0
    };
    let ghost region: Seq<char> = s@.skip(start as int);
    proof {
        if neg {
            assert(region =~= s@.drop_first());
        } else {
            assert(region =~= s@);
        }
    }
    if len == start {
        return None;
    }
    let mut acc: u128 = 0;
    let mut k: usize = start;
    while k < len
        invariant
            start <= k <= len,
            st@ == s@,
            len == s@.len(),
            start == (if neg {
                1usize
            } else {
                0usize
            }),
            neg ==> s@.len() > 0 && s@[0] == '-',
            !neg ==> s@.len() == 0 || s@[0] != '-',
            region == s@.skip(start as int),
            start < len,
            forall|j: int| start <= j < k ==> is_digit_char(#[trigger] s@[j]),
            acc == digits_val(region.take(k - start)),
            acc <= 0x8000_0000_0000_0000u128,
        decreases len - k,
    {
        let c = st.get_char(k);
        let u = c as u32;
        if u < 48 || u > 57 {
            proof {
                let m = k as int - start as int;
                assert(region[m] == s@[k as int]);
                assert(!is_digit_char(region[m]));
                assert(crate::semantics::digits_opt(region) == None::<nat>) by {
                    if forall|i: int| 0 <= i < region.len() ==> is_digit_char(
                        #[trigger] region[i],
                    ) {
                        assert(is_digit_char(region[m]));
                    }
                }
                crate::semantics::lemma_parse_int_line_cases(s@);
                if neg {
                    assert(region == s@.drop_first());
                    assert(parse_int_line(s@) == (match crate::semantics::digits_opt(
                        s@.drop_first(),
                    ) {
                        Some(n) => Some(-(n as int)),
                        None => None::<int>,
                    }));
                } else {
                    assert(region == s@);
                    assert(len > 0);
                    assert(s@[0] != '-');
                    assert(parse_int_line(s@) == (match crate::semantics::digits_opt(s@) {
                        Some(n) => Some(n as int),
                        None => None::<int>,
                    }));
                }
                assert(parse_int_line(s@) == None::<int>);
            }
            return None;
        }
        let d = (u - 48) as u128;
        acc = acc * 10 + d;
        k = k + 1;
        proof {
            assert(region.take(k - start).drop_last() =~= region.take(k - 1 - start));
            assert(region.take(k - start).last() == s@[k - 1]);
        }
        if acc > 0x8000_0000_0000_0000u128 {
            proof {
                lemma_digits_take_mono(region, k as int - start as int);
                assert(digits_val(region) >= acc);
                crate::semantics::lemma_parse_int_line_cases(s@);
                if neg {
                    assert(region == s@.drop_first());
                } else {
                    assert(region == s@);
                }
                match crate::semantics::digits_opt(region) {
                    Some(n0) => {
                        assert(n0 == digits_val(region));
                        if neg {
                            assert(parse_int_line(s@) == Some(-(n0 as int)));
                            assert(-(n0 as int) < i64::MIN as int);
                        } else {
                            assert(parse_int_line(s@) == Some(n0 as int));
                            assert(n0 as int > i64::MAX as int);
                        }
                    },
                    None => {
                        assert(parse_int_line(s@) == None::<int>);
                    },
                }
            }
            return None;
        }
    }
    proof {
        assert(region.take(len - start) =~= region);
        assert(forall|j: int| 0 <= j < region.len() ==> is_digit_char(#[trigger] region[j]));
    }
    if neg {
        if acc == 0x8000_0000_0000_0000u128 {
            Some(i64::MIN)
        } else {
            Some(-(acc as i64))
        }
    } else {
        if acc > 0x7FFF_FFFF_FFFF_FFFFu128 {
            None
        } else {
            Some(acc as i64)
        }
    }
}

/// Whether the text carries exactly the given word starting at `k`.
fn word_at(s: &str, k: usize, w: &str) -> (r: bool)
    requires
        k <= s@.len(),
    ensures
        r == (k + w@.len() <= s@.len() && s@.subrange(k as int, k + w@.len()) == w@),
{
    let sl = s.unicode_len();
    let wl = w.unicode_len();
    if sl - k < wl {
        return false;
    }
    let mut j: usize = 0;
    while j < wl
        invariant
            j <= wl,
            wl == w@.len(),
            sl == s@.len(),
            k + wl <= sl,
            forall|m: int| 0 <= m < j ==> s@[k + m] == w@[m],
        decreases wl - j,
    {
        if s.get_char(k + j) != w.get_char(j) {
            proof {
                assert(s@.subrange(k as int, k + w@.len())[j as int] == s@[k + j]);
                assert(s@.subrange(k as int, k + w@.len()) != w@);
            }
            return false;
        }
        j = j + 1;
    }
    proof {
        assert(s@.subrange(k as int, k + w@.len()) =~= w@);
    }
    true
}

/// Reads one line per `%Number` or `%String` field of the format, from
/// position `k` on; any other format character is skipped.
fn read_fields_x(fmt: &str, k: usize, io: &mut Io) -> (r: FieldsOut)
    requires
        k <= fmt@.len(),
    ensures
        final(io).out_v() == old(io).out_v(),
        match (read_fields(fmt@.skip(k as int), old(io).in_v()), r) {
            (FieldsOutS::Vals(input2, vs), FieldsOut::Vals(rv)) => final(io).in_v() == input2
                && vs == deep_data_seq(rv@),
            (FieldsOutS::Fail(input2, e), FieldsOut::Fail(re)) => final(io).in_v() == input2
                && e == re,
            _ => false,
        },
    decreases fmt@.len() - k,
{
    proof {
        reveal_strlit("Number");
        reveal_strlit("String");
    }
    let ghost rest = fmt@.skip(k as int);
    if k == fmt.unicode_len() {
        proof {
            assert(rest.len() == 0);
        }
        FieldsOut::Vals(Vec::new())
    } else {
        proof {
            assert(rest[0] == fmt@[k as int]);
            assert(rest.drop_first() =~= fmt@.skip(k + 1));
            if rest.len() >= 7 {
                assert(rest.subrange(1, 7) =~= fmt@.subrange(k + 1, k + 7));
            }
        }
        let c = fmt.get_char(k);
        let is_num = c == '%' && word_at(fmt, k + 1, "Number");
        let is_str = if is_num {
            false
        } else {
            c == '%' && word_at(fmt, k + 1, "String")
        };
        if is_num {
            proof {
                assert(rest.len() >= 7);
                assert(rest.subrange(1, 7) == "Number"@);
                assert(rest.skip(7) =~= fmt@.skip(k + 7));
            }
            let line = read_line_x(io);
            match parse_int_line_x(&line) {
                Some(v) => {
                    match read_fields_x(fmt, k + 7, io) {
                        FieldsOut::Vals(mut rv) => {
                            let ghost tail = rv@;
                            rv.insert(0, Data::Int(v));
                            proof {
                                assert(deep_data_seq(rv@) =~= seq![DataS::Int(v as int)]
                                    + deep_data_seq(tail));
                            }
                            FieldsOut::Vals(rv)
                        },
                        FieldsOut::Fail(e) => FieldsOut::Fail(e),
                    }
                },
                None => FieldsOut::Fail(EvalError::TypeMismatch),
            }
        } else if is_str {
            proof {
                assert(rest.len() >= 7);
                assert(rest.subrange(1, 7) == "String"@);
                assert(rest.subrange(1, 7) != "Number"@);
                assert(rest.skip(7) =~= fmt@.skip(k + 7));
            }
            let line = read_line_x(io);
            match read_fields_x(fmt, k + 7, io) {
                FieldsOut::Vals(mut rv) => {
                    let ghost tail = rv@;
                    let ghost lview = line@;
                    rv.insert(0, Data::String(line));
                    proof {
                        assert(deep_data_seq(rv@) =~= seq![DataS::Str(lview)]
                            + deep_data_seq(tail));
                    }
                    FieldsOut::Vals(rv)
                },
                FieldsOut::Fail(e) => FieldsOut::Fail(e),
            }
        } else {
            read_fields_x(fmt, k + 1, io)
        }
    }
}

/// Whether `c` occurs in `d`.
fn is_delim_x(c: char, d: &str) -> (r: bool)
    ensures
        r == d@.contains(c),
{
    let len = d.unicode_len();
    let mut j: usize = 0;
    while j < len
        invariant
            j <= len,
            len == d@.len(),
            forall|i: int| 0 <= i < j ==> d@[i] != c,
        decreases len - j,
    {
        if d.get_char(j) == c {
            proof {
                assert(d@[j as int] == c);
            }
            return true;
        }
        j = j + 1;
    }
    proof {
        assert(!d@.contains(c));
    }
    false
}

/// The position of the first delimiter at or after `i`, as executable code.
fn next_delim_x(t: &str, d: &str, i: usize) -> (r: usize)
    requires
        i <= t@.len(),
    ensures
        r as int == next_delim(t@, d@, i as int),
        i <= r <= t@.len(),
    decreases t@.len() - i,
{
    let len = t.unicode_len();
    if i == len {
        i
    } else if is_delim_x(t.get_char(i), d) {
        i
    } else {
        next_delim_x(t, d, i + 1)
    }
}

/// The text between two character positions, as a fresh string.
fn substr_copy(t: &str, i: usize, j: usize) -> (r: String)
    requires
        i <= j <= t@.len(),
    ensures
        r@ == t@.subrange(i as int, j as int),
{
    let mut r = String::new();
    let mut k: usize = i;
    while k < j
        invariant
            i <= k <= j <= t@.len(),
            r@ == t@.subrange(i as int, k as int),
        decreases j - k,
    {
        crate::data::push_char(&mut r, t.get_char(k));
        k = k + 1;
        proof {
            assert(r@ =~= t@.subrange(i as int, k as int));
        }
    }
    r
}

/// The pieces of `t` from position `i` on, split at the characters of `d`.
fn split_from(t: &str, d: &str, i: usize) -> (r: Vec<String>)
    requires
        i <= t@.len(),
    ensures
        r.deep_view() == split_pieces(t@, d@, i as int),
    decreases t@.len() - i,
{
    proof {
        lemma_next_delim(t@, d@, i as int);
    }
    let j = next_delim_x(t, d, i);
    let piece = substr_copy(t, i, j);
    if j == t.unicode_len() {
        let mut r: Vec<String> = Vec::new();
        r.push(piece);
        proof {
            assert(r.deep_view() =~= split_pieces(t@, d@, i as int));
        }
        r
    } else {
        let mut r = split_from(t, d, j + 1);
        let ghost tail = r.deep_view();
        r.insert(0, piece);
        proof {
            assert(r.deep_view() =~= seq![t@.subrange(i as int, j as int)] + tail);
            assert(r.deep_view() =~= split_pieces(t@, d@, i as int));
        }
        r
    }
}

/// A fresh environment binding each parameter name to the argument value in
/// the same position.
fn bind_params_x(ps: &Vec<(String, String)>, vals: &Vec<Data>) -> (r: StrMap<Data>)
    requires
        ps@.len() == vals@.len(),
    ensures
        r@ == bind_params(param_names(ps@), deep_data_seq(vals@)),
{
    let ghost names = param_names(ps@);
    let ghost dvals = deep_data_seq(vals@);
    let mut r: StrMap<Data> = StrMap::new();
    let mut i: usize = 0;
    proof {
        assert(bind_params(names.take(0), dvals.take(0)) =~= Map::<Seq<char>, DataS>::empty());
    }
    while i < ps.len()
        invariant
            i <= ps@.len(),
            ps@.len() == vals@.len(),
            names == param_names(ps@),
            dvals == deep_data_seq(vals@),
            r@ == bind_params(names.take(i as int), dvals.take(i as int)),
        decreases ps@.len() - i,
    {
        let ghost i0 = i as int;
        let v = clone_data(&vals[i]);
        r.insert(ps[i].0.clone(), v);
        i = i + 1;
        proof {
            assert(names.take(i as int).drop_last() =~= names.take(i0));
            assert(dvals.take(i as int).drop_last() =~= dvals.take(i0));
            assert(names.take(i as int).last() == names[i0]);
            assert(names[i0] == ps@[i0].0@);
            assert(dvals.take(i as int).last() == dvals[i0]);
            assert(dvals[i0] == vals@[i0].deep());
            assert(r@ == bind_params(names.take(i as int), dvals.take(i as int)));
        }
    }
    proof {
        assert(names.take(ps@.len() as int) =~= names);
        assert(dvals.take(ps@.len() as int) =~= dvals);
    }
    r
}

/// A copy of the function registry with the same view.
fn clone_registry(m: &StrMap<FnDef>) -> (r: StrMap<FnDef>)
    ensures
        r@ == m@,
{
    let mut entries: Vec<(String, FnDef)> = Vec::new();
    let mut i: usize = 0;
    while i < m.entries.len()
        invariant
            i <= m.entries@.len(),
            entries@.len() == i,
            forall|j: int|
                0 <= j < i ==> (#[trigger] entries@[j]).0@ == m.entries@[j].0@
                    && entries@[j].1.deep_view() == m.entries@[j].1.deep_view(),
        decreases m.entries@.len() - i,
    {
        let e = &m.entries[i];
        entries.push((e.0.clone(), clone_fndef(&e.1)));
        i = i + 1;
    }
    let r = StrMap { entries };
    proof {
        lemma_map_of_pointwise(r.entries@, m.entries@);
    }
    r
}

/// A copy of an array with one element replaced.
fn update_elem(es: &Vec<Data>, i: usize, v: &Data) -> (r: Vec<Data>)
    requires
        i < es@.len(),
    ensures
        deep_data_seq(r@) == deep_data_seq(es@).update(i as int, v.deep()),
{
    let mut r: Vec<Data> = Vec::new();
    let mut j: usize = 0;
    while j < es.len()
        invariant
            j <= es@.len(),
            i < es@.len(),
            r@.len() == j,
            forall|m: int| 0 <= m < j && m != i ==> r@[m].deep() == es@[m].deep(),
            j > i ==> r@[i as int].deep() == v.deep(),
        decreases es@.len() - j,
    {
        if j == i {
            r.push(clone_data(v));
        } else {
            r.push(clone_data(&es[j]));
        }
        j = j + 1;
    }
    proof {
        assert(deep_data_seq(r@) =~= deep_data_seq(es@).update(i as int, v.deep()));
    }
    r
}

/// What a built-in does once its arguments are evaluated, as executable
/// code.
fn apply_builtin_x(
    id: &String,
    vs: Vec<Data>,
    io: &mut Io,
    Ghost(env): Ghost<Map<Seq<char>, DataS>>,
    Ghost(funcs): Ghost<Map<Seq<char>, crate::ast::FnDefS>>,
) -> (r: CallOut)
    requires
        is_builtin_name(id@),
    ensures
        call_matches(
            apply_builtin(id@, deep_data_seq(vs@), st_of(env, funcs, *old(io))),
            r,
            env,
            funcs,
            *final(io),
        ),
{
    if str_is(id, "print") {
        let mut k: usize = 0;
        while k < vs.len()
            invariant
                k <= vs@.len(),
                io.in_v() == old(io).in_v(),
                io.out_v().len() == old(io).out_v().len() + k,
                forall|j: int|
                    0 <= j < old(io).out_v().len() ==> io.out_v()[j] == old(io).out_v()[j],
                forall|j: int|
                    0 <= j < k ==> io.out_v()[old(io).out_v().len() + j] == render_data(
                        vs@[j].deep(),
                    ),
            decreases vs@.len() - k,
        {
            let line = render_data_x(&vs[k]);
            io.output.push(line);
            k = k + 1;
        }
        proof {
            assert(io.out_v() =~= old(io).out_v() + render_all(deep_data_seq(vs@)));
        }
        CallOut::Unit
    } else if str_is(id, "return") {
        if vs.len() != 1 {
            CallOut::Fail(EvalError::ArityMismatch)
        } else {
            match &vs[0] {
                Data::Int(n) => CallOut::Halt(*n),
                _ => CallOut::Fail(EvalError::TypeMismatch),
            }
        }
    } else if str_is(id, "input") {
        if vs.len() != 0 {
            CallOut::Fail(EvalError::ArityMismatch)
        } else {
            let line = read_line_x(io);
            CallOut::Val(Data::String(line))
        }
    } else if str_is(id, "inputf") {
        if vs.len() != 1 {
            CallOut::Fail(EvalError::ArityMismatch)
        } else {
            match &vs[0] {
                Data::String(fmt) => {
                    proof {
                        assert(fmt@.skip(0) =~= fmt@);
                    }
                    match read_fields_x(fmt.as_str(), 0, io) {
                        FieldsOut::Vals(fields) => CallOut::Val(Data::Array(fields)),
                        FieldsOut::Fail(e) => CallOut::Fail(e),
                    }
                },
                _ => CallOut::Fail(EvalError::TypeMismatch),
            }
        }
    } else {
        if vs.len() != 2 {
            CallOut::Fail(EvalError::ArityMismatch)
        } else {
            match (&vs[0], &vs[1]) {
                (Data::String(t), Data::String(d)) => {
                    let pieces = split_from(t.as_str(), d.as_str(), 0);
                    let mut arr: Vec<Data> = Vec::new();
                    let mut k: usize = 0;
                    while k < pieces.len()
                        invariant
                            k <= pieces@.len(),
                            arr@.len() == k,
                            forall|j: int|
                                0 <= j < k ==> arr@[j].deep() == DataS::Str(
                                    pieces@[j as int]@,
                                ),
                        decreases pieces@.len() - k,
                    {
                        arr.push(Data::String(pieces[k].clone()));
                        k = k + 1;
                    }
                    proof {
                        let ps = split_pieces(t@, d@, 0);
                        assert(pieces.deep_view().len() == pieces@.len());
                        assert(deep_data_seq(arr@) =~= Seq::new(
                            ps.len(),
                            |i: int| DataS::Str(ps[i]),
                        ));
                    }
                    CallOut::Val(Data::Array(arr))
                },
                _ => CallOut::Fail(EvalError::TypeMismatch),
            }
        }
    }
}

proof fn lemma_crop_id(x: int)
    requires
        -0x8000_0000_0000_0000 <= x <= 0x7FFF_FFFF_FFFF_FFFF,
    ensures
        vstd::wrapping::i64_specs::signed_crop(x) as int == x,
{
    let r = 0x1_0000_0000_0000_0000;
    if x >= 0 {
        vstd::arithmetic::div_mod::lemma_small_mod(x as nat, r as nat);
    } else {
        vstd::arithmetic::div_mod::lemma_mod_add_multiples_vanish(x, r);
        vstd::arithmetic::div_mod::lemma_small_mod((x + r) as nat, r as nat);
    }
}

proof fn lemma_crop_big()
    ensures
        vstd::wrapping::i64_specs::signed_crop(0x8000_0000_0000_0000) == i64::MIN,
{
    vstd::arithmetic::div_mod::lemma_small_mod(
        0x8000_0000_0000_0000nat,
        0x1_0000_0000_0000_0000nat,
    );
}

/// Truncating 64-bit division, wrapping on the one overflowing pair.
fn div_trunc_x(a: i64, b: i64) -> (r: i64)
    requires
        b != 0,
    ensures
        r == vstd::wrapping::i64_specs::signed_crop(
            crate::semantics::div_trunc(a as int, b as int),
        ),
{
    if a == i64::MIN && b == -1 {
        proof {
            assert(crate::semantics::abs_int(a as int) == 0x8000_0000_0000_0000);
            assert(crate::semantics::abs_int(b as int) == 1);
            vstd::arithmetic::div_mod::lemma_div_basics(0x8000_0000_0000_0000);
            assert(crate::semantics::div_trunc(a as int, b as int) == 0x8000_0000_0000_0000);
            lemma_crop_big();
        }
        i64::MIN
    } else {
        let mag_a: u64 = if a >= 0 {
            a as u64
        } else {
            (-(a as i128)) as u64
        };
        let mag_b: u64 = if b >= 0 {
            b as u64
        } else {
            (-(b as i128)) as u64
        };
        let q = mag_a / mag_b;
        proof {
            assert(mag_a as int == crate::semantics::abs_int(a as int));
            assert(mag_b as int == crate::semantics::abs_int(b as int));
            vstd::arithmetic::div_mod::lemma_fundamental_div_mod(mag_a as int, mag_b as int);
            assert(q as int <= mag_a as int) by (nonlinear_arith)
                requires
                    mag_a as int == (mag_b as int) * (q as int) + (mag_a as int) % (
                    mag_b as int),
                    mag_b as int >= 1,
                    0 <= (mag_a as int) % (mag_b as int),
                    q as int >= 0,
            ;
        }
        if (a < 0) != (b < 0) {
            if q == 0x8000_0000_0000_0000u64 {
                proof {
                    lemma_crop_id(-(q as int));
                }
                i64::MIN
            } else {
                proof {
                    lemma_crop_id(-(q as int));
                }
                -(q as i64)
            }
        } else {
            if q >= 0x8000_0000_0000_0000u64 {
                proof {
                    lemma_crop_big();
                }
                i64::MIN
            } else {
                proof {
                    lemma_crop_id(q as int);
                }
                q as i64
            }
        }
    }
}

/// One binary operation on two integer values, as executable code.
fn apply_op_x(op: crate::ast::BinOp, a: i64, b: i64) -> (r: EvalOut)
    ensures
        if op == crate::ast::BinOp::Div && b == 0 {
            r == EvalOut::Fail(EvalError::DivisionByZero)
        } else {
            r == EvalOut::Val(Data::Int(crate::semantics::apply_op(op, a, b)))
        },
{
    match op {
        crate::ast::BinOp::Add => EvalOut::Val(Data::Int(a.wrapping_add(b))),
        crate::ast::BinOp::Sub => EvalOut::Val(Data::Int(a.wrapping_sub(b))),
        crate::ast::BinOp::Mul => EvalOut::Val(Data::Int(a.wrapping_mul(b))),
        crate::ast::BinOp::Div => if b == 0 {
            EvalOut::Fail(EvalError::DivisionByZero)
        } else {
            EvalOut::Val(Data::Int(div_trunc_x(a, b)))
        },
        crate::ast::BinOp::Lt => EvalOut::Val(Data::Int(if a < b { 1 } else { 0 })),
        crate::ast::BinOp::Gt => EvalOut::Val(Data::Int(if a > b { 1 } else { 0 })),
        crate::ast::BinOp::Le => EvalOut::Val(Data::Int(if a <= b { 1 } else { 0 })),
        crate::ast::BinOp::Ge => EvalOut::Val(Data::Int(if a >= b { 1 } else { 0 })),
        crate::ast::BinOp::Eq => EvalOut::Val(Data::Int(if a == b { 1 } else { 0 })),
    }
}

/// Evaluates one expression against the given environment and registry.
/// The result, the values read from input and the lines written to output
/// are exactly what [`eval_expr_s`] says; the environment and the registry
/// are left as they were.
#[verifier::rlimit(100)]
pub fn eval_expr(
    e: &Ast,
    env: &StrMap<Data>,
    funcs: &StrMap<FnDef>,
    io: &mut Io,
    depth: u64,
) -> (r: EvalOut)
    ensures
        expr_matches(
            eval_expr_s(e.deep(), st_of(env@, funcs@, *old(io)), depth as nat),
            r,
            env@,
            funcs@,
            *final(io),
        ),
    decreases depth, e, 0int, 0int,
{
    match e {
        Ast::Int(n) => {
            let out = EvalOut::Val(Data::Int(*n));
            proof {
                assert(expr_matches(
                    eval_expr_s(e.deep(), st_of(env@, funcs@, *old(io)), depth as nat),
                    out,
                    env@,
                    funcs@,
                    *io,
                ));
            }
            out
        },
        Ast::String(s) => {
            let out = EvalOut::Val(Data::String(s.clone()));
            proof {
                assert(expr_matches(
                    eval_expr_s(e.deep(), st_of(env@, funcs@, *old(io)), depth as nat),
                    out,
                    env@,
                    funcs@,
                    *io,
                ));
            }
            out
        },
        Ast::Identifier(name) => match env.get(name) {
            Some(v) => {
                let out = EvalOut::Val(clone_data(v));
                proof {
                    assert(expr_matches(
                        eval_expr_s(e.deep(), st_of(env@, funcs@, *old(io)), depth as nat),
                        out,
                        env@,
                        funcs@,
                        *io,
                    ));
                }
                out
            },
            None => EvalOut::Fail(EvalError::UndefinedVariable),
        },
        Ast::Array(elems) => {
            let out = match eval_args(elems, 0, env, funcs, io, depth) {
                ArgsOut::Vals(vs) => EvalOut::Val(Data::Array(vs)),
                ArgsOut::Halt(c) => EvalOut::Halt(c),
                ArgsOut::Fail(er) => EvalOut::Fail(er),
            };
            proof {
                assert(expr_matches(
                    eval_expr_s(e.deep(), st_of(env@, funcs@, *old(io)), depth as nat),
                    out,
                    env@,
                    funcs@,
                    *io,
                ));
            }
            out
        },
        Ast::BinaryOp { op, left, right } => {
            let out = match eval_expr(left, env, funcs, io, depth) {
                EvalOut::Val(v1) => match eval_expr(right, env, funcs, io, depth) {
                    EvalOut::Val(v2) => match (v1, v2) {
                        (Data::Int(a), Data::Int(b)) => apply_op_x(*op, a, b),
                        _ => EvalOut::Fail(EvalError::TypeMismatch),
                    },
                    o2 => o2,
                },
                o1 => o1,
            };
            proof {
                assert(expr_matches(
                    eval_expr_s(e.deep(), st_of(env@, funcs@, *old(io)), depth as nat),
                    out,
                    env@,
                    funcs@,
                    *io,
                ));
            }
            out
        },
        Ast::IndexAccess { target, index } => {
            let out = match eval_expr(target, env, funcs, io, depth) {
                EvalOut::Val(v1) => match eval_expr(index, env, funcs, io, depth) {
                    EvalOut::Val(v2) => match (v1, v2) {
                        (Data::Array(es), Data::Int(ival)) => {
                            proof {
                                assert(deep_data_seq(es@).len() == es@.len());
                            }
                            if ival < 0 || ival as u64 >= es.len() as u64 {
                                EvalOut::Fail(EvalError::IndexOutOfBounds)
                            } else {
                                let elem = clone_data(&es[ival as usize]);
                                proof {
                                    assert(elem.deep() == deep_data_seq(es@)[ival as int]);
                                }
                                EvalOut::Val(elem)
                            }
                        },
                        _ => EvalOut::Fail(EvalError::TypeMismatch),
                    },
                    o2 => o2,
                },
                o1 => o1,
            };
            proof {
                assert(expr_matches(
                    eval_expr_s(e.deep(), st_of(env@, funcs@, *old(io)), depth as nat),
                    out,
                    env@,
                    funcs@,
                    *io,
                ));
            }
            out
        },
        Ast::FunctionCall { id, args } => {
            let out = match eval_call(id, args, env, funcs, io, depth) {
                CallOut::Val(v) => EvalOut::Val(v),
                CallOut::Unit => EvalOut::Fail(EvalError::NoValue),
                CallOut::Halt(c) => EvalOut::Halt(c),
                CallOut::Fail(er) => EvalOut::Fail(er),
            };
            proof {
                assert(expr_matches(
                    eval_expr_s(e.deep(), st_of(env@, funcs@, *old(io)), depth as nat),
                    out,
                    env@,
                    funcs@,
                    *io,
                ));
            }
            out
        },
        _ => {
            let out = EvalOut::Fail(EvalError::UnhandledNodeKind);
            proof {
                assert(expr_matches(
                    eval_expr_s(e.deep(), st_of(env@, funcs@, *old(io)), depth as nat),
                    out,
                    env@,
                    funcs@,
                    *io,
                ));
            }
            out
        },
    }
}

/// Evaluates the expressions of a list from position `i` on, left to right.
fn eval_args(
    es: &Vec<Ast>,
    i: usize,
    env: &StrMap<Data>,
    funcs: &StrMap<FnDef>,
    io: &mut Io,
    depth: u64,
) -> (r: ArgsOut)
    requires
        i <= es@.len(),
    ensures
        args_matches(
            eval_args_s(deep_ast_seq(es@), i as int, st_of(env@, funcs@, *old(io)), depth as nat),
            r,
            env@,
            funcs@,
            *final(io),
        ),
    decreases depth, es@, 0int, es@.len() - i,
{
    if i == es.len() {
        let r: Vec<Data> = Vec::new();
        proof {
            assert(deep_data_seq(r@) =~= Seq::<DataS>::empty());
        }
        ArgsOut::Vals(r)
    } else {
        match eval_expr(&es[i], env, funcs, io, depth) {
            EvalOut::Val(v) => match eval_args(es, i + 1, env, funcs, io, depth) {
                ArgsOut::Vals(mut vs) => {
                    let ghost tail = vs@;
                    let ghost gv = v.deep();
                    vs.insert(0, v);
                    proof {
                        assert(deep_data_seq(vs@) =~= seq![gv] + deep_data_seq(tail));
                    }
                    ArgsOut::Vals(vs)
                },
                out => out,
            },
            EvalOut::Halt(c) => ArgsOut::Halt(c),
            EvalOut::Fail(er) => ArgsOut::Fail(er),
        }
    }
}

/// Performs one call: the built-in table first, then the registry. For a
/// registered function the arity is checked, the arguments are evaluated in
/// the caller's environment, and the body runs against a fresh environment
/// holding only the parameters, with its own copy of the registry.
#[verifier::rlimit(100)]
pub fn eval_call(
    id: &String,
    args: &Vec<Ast>,
    env: &StrMap<Data>,
    funcs: &StrMap<FnDef>,
    io: &mut Io,
    depth: u64,
) -> (r: CallOut)
    ensures
        call_matches(
            eval_call_s(id@, deep_ast_seq(args@), st_of(env@, funcs@, *old(io)), depth as nat),
            r,
            env@,
            funcs@,
            *final(io),
        ),
    decreases depth, args@, 1int, 0int,
{
    if is_builtin_x(id) {
        match eval_args(args, 0, env, funcs, io, depth) {
            ArgsOut::Vals(vs) => apply_builtin_x(id, vs, io, Ghost(env@), Ghost(funcs@)),
            ArgsOut::Halt(c) => CallOut::Halt(c),
            ArgsOut::Fail(er) => CallOut::Fail(er),
        }
    } else {
        match funcs.get(id) {
            Some(def) => {
                if args.len() != def.params.len() {
                    CallOut::Fail(EvalError::ArityMismatch)
                } else {
                    proof {
                        crate::semantics::lemma_eval_args_len(
                            deep_ast_seq(args@),
                            0,
                            st_of(env@, funcs@, *io),
                            depth as nat,
                        );
                    }
                    match eval_args(args, 0, env, funcs, io, depth) {
                        ArgsOut::Vals(vs) => {
                            if depth == 0 {
                                CallOut::Fail(EvalError::RecursionLimitExceeded)
                            } else {
                                let mut callee_env = bind_params_x(&def.params, &vs);
                                let mut callee_funcs = clone_registry(funcs);
                                let rb = exec_stmts(
                                    &def.body,
                                    0,
                                    &mut callee_env,
                                    &mut callee_funcs,
                                    io,
                                    depth - 1,
                                );
                                match rb {
                                    StmtOut::Next => CallOut::Unit,
                                    StmtOut::Halt(c) => CallOut::Halt(c),
                                    StmtOut::Fail(er) => CallOut::Fail(er),
                                }
                            }
                        },
                        ArgsOut::Halt(c) => CallOut::Halt(c),
                        ArgsOut::Fail(er) => CallOut::Fail(er),
                    }
                }
            },
            None => CallOut::Fail(EvalError::UndefinedFunction),
        }
    }
}

/// Executes one statement against the given environment and registry. What
/// it does to them and to the input and output is exactly what
/// [`exec_stmt_s`] says.
#[verifier::rlimit(100)]
#[verifier::spinoff_prover]
pub fn exec_stmt(
    s: &Ast,
    env: &mut StrMap<Data>,
    funcs: &mut StrMap<FnDef>,
    io: &mut Io,
    depth: u64,
) -> (r: StmtOut)
    ensures
        stmt_matches(
            exec_stmt_s(s.deep(), st_of(old(env)@, old(funcs)@, *old(io)), depth as nat),
            r,
            final(env)@,
            final(funcs)@,
            *final(io),
        ),
    decreases depth, s, 0int, 0int,
{
    match s {
        Ast::Assign { id, expr } => match eval_expr(expr, env, funcs, io, depth) {
            EvalOut::Val(v) => {
                env.insert(id.clone(), v);
                StmtOut::Next
            },
            EvalOut::Halt(c) => StmtOut::Halt(c),
            EvalOut::Fail(er) => StmtOut::Fail(er),
        },
        Ast::IndexAssign { id, index, value } => match eval_expr(index, env, funcs, io, depth) {
            EvalOut::Val(vi) => match eval_expr(value, env, funcs, io, depth) {
                EvalOut::Val(vv) => match env.get(id) {
                    None => StmtOut::Fail(EvalError::UndefinedVariable),
                    Some(cur) => match (cur, &vi) {
                        (Data::Array(es), Data::Int(ival)) => {
                            proof {
                                assert(deep_data_seq(es@).len() == es@.len());
                            }
                            if *ival < 0 || *ival as u64 >= es.len() as u64 {
                                StmtOut::Fail(EvalError::IndexOutOfBounds)
                            } else {
                                let newarr = update_elem(es, *ival as usize, &vv);
                                proof {
                                    assert(Data::Array(newarr).deep() == DataS::Arr(
                                        deep_data_seq(es@).update(*ival as int, vv.deep()),
                                    ));
                                }
                                env.insert(id.clone(), Data::Array(newarr));
                                StmtOut::Next
                            }
                        },
                        _ => StmtOut::Fail(EvalError::TypeMismatch),
                    },
                },
                EvalOut::Halt(c) => StmtOut::Halt(c),
                EvalOut::Fail(er) => StmtOut::Fail(er),
            },
            EvalOut::Halt(c) => StmtOut::Halt(c),
            EvalOut::Fail(er) => StmtOut::Fail(er),
        },
        Ast::FunctionDefinition { id, params, body } => {
            if funcs.contains(id) || is_builtin_x(id) {
                StmtOut::Fail(EvalError::DuplicateFunctionDefinition)
            } else {
                funcs.insert(
                    id.clone(),
                    FnDef {
                        params: crate::ast::clone_params(params),
                        body: crate::ast::clone_ast_vec(body),
                    },
                );
                StmtOut::Next
            }
        },
        Ast::FunctionCall { id, args } => match eval_call(id, args, env, funcs, io, depth) {
            CallOut::Val(_v) => StmtOut::Next,
            CallOut::Unit => StmtOut::Next,
            CallOut::Halt(c) => StmtOut::Halt(c),
            CallOut::Fail(er) => StmtOut::Fail(er),
        },
        Ast::If { cond, body } => match eval_expr(cond, env, funcs, io, depth) {
            EvalOut::Val(v) => match v {
                Data::Int(c) => if c != 0 {
                    exec_stmts(body, 0, env, funcs, io, depth)
                } else {
                    StmtOut::Next
                },
                _ => StmtOut::Fail(EvalError::TypeMismatch),
            },
            EvalOut::Halt(c) => StmtOut::Halt(c),
            EvalOut::Fail(er) => StmtOut::Fail(er),
        },
        Ast::For { var, iter, body } => match eval_expr(iter, env, funcs, io, depth) {
            EvalOut::Val(v) => match v {
                Data::Array(es) => run_for(var, &es, 0, body, env, funcs, io, depth),
                _ => StmtOut::Fail(EvalError::TypeMismatch),
            },
            EvalOut::Halt(c) => StmtOut::Halt(c),
            EvalOut::Fail(er) => StmtOut::Fail(er),
        },
        _ => StmtOut::Fail(EvalError::UnhandledNodeKind),
    }
}

/// One loop pass per array element from position `idx` on; the loop
/// variable lives in the enclosing environment.
#[verifier::rlimit(100)]
fn run_for(
    var: &String,
    elems: &Vec<Data>,
    idx: usize,
    body: &Vec<Ast>,
    env: &mut StrMap<Data>,
    funcs: &mut StrMap<FnDef>,
    io: &mut Io,
    depth: u64,
) -> (r: StmtOut)
    requires
        idx <= elems@.len(),
    ensures
        stmt_matches(
            run_for_s(
                var@,
                deep_data_seq(elems@),
                idx as int,
                deep_ast_seq(body@),
                st_of(old(env)@, old(funcs)@, *old(io)),
                depth as nat,
            ),
            r,
            final(env)@,
            final(funcs)@,
            *final(io),
        ),
    decreases depth, body@, elems@.len() - idx + 1, 0int,
{
    if idx == elems.len() {
        StmtOut::Next
    } else {
        env.insert(var.clone(), clone_data(&elems[idx]));
        match exec_stmts(body, 0, env, funcs, io, depth) {
            StmtOut::Next => run_for(var, elems, idx + 1, body, env, funcs, io, depth),
            out => out,
        }
    }
}

/// Executes a statement sequence from position `i` on. A halt or a failure
/// stops the sequence at once.
#[verifier::rlimit(100)]
pub fn exec_stmts(
    ss: &Vec<Ast>,
    i: usize,
    env: &mut StrMap<Data>,
    funcs: &mut StrMap<FnDef>,
    io: &mut Io,
    depth: u64,
) -> (r: StmtOut)
    requires
        i <= ss@.len(),
    ensures
        stmt_matches(
            exec_stmts_s(deep_ast_seq(ss@), i as int, st_of(old(env)@, old(funcs)@, *old(io)), depth as nat),
            r,
            final(env)@,
            final(funcs)@,
            *final(io),
        ),
    decreases depth, ss@, 0int, ss@.len() - i,
{
    if i == ss.len() {
        StmtOut::Next
    } else {
        match exec_stmt(&ss[i], env, funcs, io, depth) {
            StmtOut::Next => exec_stmts(ss, i + 1, env, funcs, io, depth),
            out => out,
        }
    }
}

/// How one whole run ended.
#[derive(Debug, PartialEq, Eq, Structural, Clone, Copy)]
pub enum RunOutcome {
    /// Every statement ran; no `return` was reached.
    Completed,
    /// A `return` halted the program with this exit status.
    Halted(i64),
    /// An evaluation error aborted the run.
    Failed(EvalError),
}

/// A program about to run, or having run: its statements, its variable
/// environment, its function registry, and its input and output lines.
pub struct Program {
    pub commands: Vec<Ast>,
    pub variable: StrMap<Data>,
    pub function: StrMap<FnDef>,
    pub io: Io,
}

impl Program {
    /// A program over the given statements, with an empty environment and
    /// registry, the given input lines, and no output yet.
    pub fn new(commands: Vec<Ast>, input: Vec<String>) -> (p: Program)
        ensures
            p.commands@ == commands@,
            p.variable@ == Map::<Seq<char>, DataS>::empty(),
            p.function@ == Map::<Seq<char>, crate::ast::FnDefS>::empty(),
            p.io.in_v() == input.deep_view(),
            p.io.out_v() == Seq::<Seq<char>>::empty(),
    {
        let p = Program {
            commands,
            variable: StrMap::new(),
            function: StrMap::new(),
            io: Io { input, output: Vec::new() },
        };
        proof {
            assert(p.io.out_v() =~= Seq::<Seq<char>>::empty());
        }
        p
    }

    /// Runs the statements in order against the program's state, with the
    /// fixed call-depth bound. The outcome, the final environment and
    /// registry, the input left unread and every output line written are
    /// exactly what [`exec_stmts_s`] says of the starting state.
    pub fn run_loop(&mut self) -> (r: RunOutcome)
        ensures
            final(self).commands@ == old(self).commands@,
            ({
                let out = exec_stmts_s(
                    deep_ast_seq(old(self).commands@),
                    0,
                    st_of(old(self).variable@, old(self).function@, old(self).io),
                    crate::semantics::MAX_CALL_DEPTH as nat,
                );
                match (out, r) {
                    (StmtOutS::Next(st), RunOutcome::Completed) => st == st_of(
                        final(self).variable@,
                        final(self).function@,
                        final(self).io,
                    ),
                    (StmtOutS::Halt(st, c), RunOutcome::Halted(rc)) => st == st_of(
                        final(self).variable@,
                        final(self).function@,
                        final(self).io,
                    ) && c == rc as int,
                    (StmtOutS::Fail(st, e), RunOutcome::Failed(re)) => st == st_of(
                        final(self).variable@,
                        final(self).function@,
                        final(self).io,
                    ) && e == re,
                    _ => false,
                }
            }),
    {
        let out = exec_stmts(
            &self.commands,
            0,
            &mut self.variable,
            &mut self.function,
            &mut self.io,
            crate::semantics::MAX_CALL_DEPTH,
        );
        match out {
            StmtOut::Next => RunOutcome::Completed,
            StmtOut::Halt(c) => RunOutcome::Halted(c),
            StmtOut::Fail(e) => RunOutcome::Failed(e),
        }
    }
}

} // verus!
