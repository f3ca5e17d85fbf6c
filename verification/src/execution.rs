use vstd::prelude::*;

use crate::error::{Error, Result};
use crate::operators::{
    aload_post, arithmetic, arithmetic_post, array_post, astore_post, clear_post,
    cleartomark_post, copy_post, count_post, counttomark_post, dup_post, endarray_post,
    exch_post, get_post, getinterval_post, idiv_post, imod_post, index_post, length_post,
    mark_post, num_unary, num_unary_post, operands_view, pop_post, put_post,
    putinterval_post, rand_post, real_binary, real_binary_post, real_unary, real_unary_post,
    roll_overflows, roll_post, rrand_post, srand_post, Arithmetic, InterpreterState, Object,
    Unary,
};
use crate::rand::lcg_next;
use crate::stack::Stack;

verus! {

/// The operators of the system dictionary.
#[derive(Clone, Copy, Debug, PartialEq, Eq, Structural)]
pub enum SystemOperator {
    Dup,
    Exch,
    Pop,
    Copy,
    Roll,
    Index,
    Mark,
    Clear,
    Count,
    CountToMark,
    ClearToMark,
    Add,
    Div,
    IDiv,
    Mod,
    Mul,
    Sub,
    Abs,
    Neg,
    Ceiling,
    Floor,
    Round,
    Truncate,
    Sqrt,
    Atan,
    Cos,
    Sin,
    Exp,
    Ln,
    Log,
    Rand,
    Srand,
    Rrand,
    Array,
    StartArray,
    EndArray,
    Length,
    Get,
    Put,
    GetInterval,
    PutInterval,
    Astore,
    Aload,
}

/// What a name is bound to: an object of its own, or an operator of the system.
#[derive(Clone, Copy, Debug, PartialEq, Eq, Structural)]
pub enum Procedure {
    Defined(Object),
    System(SystemOperator),
}

/// How running a token or an operator ends when it does not fail: done, or left to the
/// caller because it takes floating point. `ReadNumeric` holds the text of an integer
/// token out of the integer range (a real where it parses as a double, a `syntaxerror`
/// otherwise), `ReadReal` the text of a real token, and `RealOperator` an operator on
/// reals with the operands it took off the stack, bottom first: the caller computes the
/// real result and pushes it.
#[derive(Debug)]
pub enum Step {
    Done,
    ReadNumeric(String),
    ReadReal(String),
    RealOperator(SystemOperator, Vec<Object>),
}

/// The entries `s` as a map from names; a later entry for a name hides an earlier one.
pub open spec fn entries_map(s: Seq<(String, Procedure)>) -> Map<Seq<char>, Procedure>
    decreases s.len(),
{
    if s.len() == 0 {
        Map::empty()
    } else {
        entries_map(s.drop_last()).insert(s.last().0@, s.last().1)
    }
}

/// Entries after position `i` that do not bind `k` leave its binding as the first `i`
/// entries have it.
proof fn lemma_entries_prefix(s: Seq<(String, Procedure)>, i: int, k: Seq<char>)
    requires
        0 <= i <= s.len(),
        forall|j: int| i <= j < s.len() ==> #[trigger] s[j].0@ != k,
    ensures
        entries_map(s).contains_key(k) == entries_map(s.take(i)).contains_key(k),
        entries_map(s).contains_key(k) ==> entries_map(s)[k] == entries_map(s.take(i))[k],
    decreases s.len() - i,
{
    if i == s.len() {
        assert(s.take(i) =~= s);
    } else {
        let t = s.drop_last();
        assert(s[s.len() - 1].0@ != k);
        assert forall|j: int| i <= j < t.len() implies #[trigger] t[j].0@ != k by {
            assert(t[j] == s[j]);
        }
        lemma_entries_prefix(t, i, k);
        assert(t.take(i) =~= s.take(i));
    }
}

/// Replacing the last entry for a name replaces its binding.
proof fn lemma_entries_update(s: Seq<(String, Procedure)>, i: int, e: (String, Procedure))
    requires
        0 <= i < s.len(),
        e.0@ == s[i].0@,
        forall|j: int| i < j < s.len() ==> #[trigger] s[j].0@ != e.0@,
    ensures
        entries_map(s.update(i, e)) == entries_map(s).insert(e.0@, e.1),
    decreases s.len(),
{
    let u = s.update(i, e);
    if i == s.len() - 1 {
        assert(u.drop_last() =~= s.drop_last());
        assert(entries_map(u) =~= entries_map(s).insert(e.0@, e.1));
    } else {
        let t = s.drop_last();
        assert forall|j: int| i < j < t.len() implies #[trigger] t[j].0@ != e.0@ by {
            assert(t[j] == s[j]);
        }
        lemma_entries_update(t, i, e);
        assert(u.drop_last() =~= t.update(i, e));
        assert(s[s.len() - 1].0@ != e.0@);
        assert(entries_map(u) =~= entries_map(s).insert(e.0@, e.1));
    }
}

/// A dictionary of procedures by name.
#[derive(Debug)]
pub struct Dictionary {
    entries: Vec<(String, Procedure)>,
}

impl View for Dictionary {
    type V = Map<Seq<char>, Procedure>;

    closed spec fn view(&self) -> Map<Seq<char>, Procedure> {
        entries_map(self.entries@)
    }
}

impl Dictionary {
    /// An empty dictionary.
    pub fn new() -> (r: Self)
        ensures
            r@ == Map::<Seq<char>, Procedure>::empty(),
    {
        Dictionary { entries: Vec::new() }
    }

    /// The position of the last entry for `key`, if any.
    fn position(&self, key: &String) -> (r: Option<usize>)
        ensures
            match r {
                Some(i) => i < self.entries@.len() && self.entries@[i as int].0@ == key@
                    && forall|j: int|
                    i < j < self.entries@.len() ==> #[trigger] self.entries@[j].0@ != key@,
                None => forall|j: int|
                    0 <= j < self.entries@.len() ==> #[trigger] self.entries@[j].0@ != key@,
            },
    {
        let mut i = self.entries.len();
        while i > 0
            invariant
                i <= self.entries@.len(),
                forall|j: int| i <= j < self.entries@.len() ==> #[trigger] self.entries@[j].0@
                    != key@,
            decreases i,
        {
            i = i - 1;
            if self.entries[i].0 == *key {
                return Some(i);
            }
        }
        None
    }

    /// The procedure bound to `key`.
    pub fn get(&self, key: &String) -> (r: Option<&Procedure>)
        ensures
            match r {
                Some(p) => self@.contains_key(key@) && self@[key@] == *p,
                None => !self@.contains_key(key@),
            },
    {
        let s = Ghost(self.entries@);
        match self.position(key) {
            Some(i) => {
                proof {
                    lemma_entries_prefix(s@, i + 1, key@);
                    assert(s@.take(i + 1).drop_last() =~= s@.take(i as int));
                }
                Some(&self.entries[i].1)
            },
            None => {
                proof {
                    lemma_entries_prefix(s@, 0, key@);
                    assert(s@.take(0) =~= Seq::<(String, Procedure)>::empty());
                }
                None
            },
        }
    }

    /// Whether `key` is bound.
    pub fn contains_key(&self, key: &String) -> (r: bool)
        ensures
            r == self@.contains_key(key@),
    {
        self.get(key).is_some()
    }

    /// Binds `key` to `value`, in place of what it was bound to.
    pub fn insert(&mut self, key: String, value: Procedure)
        ensures
            final(self)@ == old(self)@.insert(key@, value),
    {
        match self.position(&key) {
            Some(i) => {
                proof {
                    lemma_entries_update(self.entries@, i as int, (key, value));
                }
                self.entries.set(i, (key, value));
            },
            None => {
                let ghost s = self.entries@;
                self.entries.push((key, value));
                assert(self.entries@.drop_last() =~= s);
            },
        }
    }
}

/// The operators of the system dictionary under their names.
pub open spec fn system_procedures() -> Map<Seq<char>, Procedure> {
    Map::empty().insert("dup"@, Procedure::System(SystemOperator::Dup)).insert(
        "exch"@,
        Procedure::System(SystemOperator::Exch),
    ).insert("pop"@, Procedure::System(SystemOperator::Pop)).insert(
        "copy"@,
        Procedure::System(SystemOperator::Copy),
    ).insert("roll"@, Procedure::System(SystemOperator::Roll)).insert(
        "index"@,
        Procedure::System(SystemOperator::Index),
    ).insert("mark"@, Procedure::System(SystemOperator::Mark)).insert(
        "clear"@,
        Procedure::System(SystemOperator::Clear),
    ).insert("count"@, Procedure::System(SystemOperator::Count)).insert(
        "counttomark"@,
        Procedure::System(SystemOperator::CountToMark),
    ).insert("cleartomark"@, Procedure::System(SystemOperator::ClearToMark)).insert(
        "add"@,
        Procedure::System(SystemOperator::Add),
    ).insert("div"@, Procedure::System(SystemOperator::Div)).insert(
        "idiv"@,
        Procedure::System(SystemOperator::IDiv),
    ).insert("mod"@, Procedure::System(SystemOperator::Mod)).insert(
        "mul"@,
        Procedure::System(SystemOperator::Mul),
    ).insert("sub"@, Procedure::System(SystemOperator::Sub)).insert(
        "abs"@,
        Procedure::System(SystemOperator::Abs),
    ).insert("neg"@, Procedure::System(SystemOperator::Neg)).insert(
        "ceiling"@,
        Procedure::System(SystemOperator::Ceiling),
    ).insert("floor"@, Procedure::System(SystemOperator::Floor)).insert(
        "round"@,
        Procedure::System(SystemOperator::Round),
    ).insert("truncate"@, Procedure::System(SystemOperator::Truncate)).insert(
        "sqrt"@,
        Procedure::System(SystemOperator::Sqrt),
    ).insert("atan"@, Procedure::System(SystemOperator::Atan)).insert(
        "cos"@,
        Procedure::System(SystemOperator::Cos),
    ).insert("sin"@, Procedure::System(SystemOperator::Sin)).insert(
        "exp"@,
        Procedure::System(SystemOperator::Exp),
    ).insert("ln"@, Procedure::System(SystemOperator::Ln)).insert(
        "log"@,
        Procedure::System(SystemOperator::Log),
    ).insert("rand"@, Procedure::System(SystemOperator::Rand)).insert(
        "srand"@,
        Procedure::System(SystemOperator::Srand),
    ).insert("rrand"@, Procedure::System(SystemOperator::Rrand)).insert(
        "array"@,
        Procedure::System(SystemOperator::Array),
    ).insert("["@, Procedure::System(SystemOperator::StartArray)).insert(
        "]"@,
        Procedure::System(SystemOperator::EndArray),
    ).insert("length"@, Procedure::System(SystemOperator::Length)).insert(
        "get"@,
        Procedure::System(SystemOperator::Get),
    ).insert("put"@, Procedure::System(SystemOperator::Put)).insert(
        "getinterval"@,
        Procedure::System(SystemOperator::GetInterval),
    ).insert("putinterval"@, Procedure::System(SystemOperator::PutInterval)).insert(
        "astore"@,
        Procedure::System(SystemOperator::Astore),
    ).insert("aload"@, Procedure::System(SystemOperator::Aload))
}

/// The name under which the system dictionary holds each operator.
pub open spec fn operator_name(op: SystemOperator) -> Seq<char> {
    match op {
        SystemOperator::Dup => "dup"@,
        SystemOperator::Exch => "exch"@,
        SystemOperator::Pop => "pop"@,
        SystemOperator::Copy => "copy"@,
        SystemOperator::Roll => "roll"@,
        SystemOperator::Index => "index"@,
        SystemOperator::Mark => "mark"@,
        SystemOperator::Clear => "clear"@,
        SystemOperator::Count => "count"@,
        SystemOperator::CountToMark => "counttomark"@,
        SystemOperator::ClearToMark => "cleartomark"@,
        SystemOperator::Add => "add"@,
        SystemOperator::Div => "div"@,
        SystemOperator::IDiv => "idiv"@,
        SystemOperator::Mod => "mod"@,
        SystemOperator::Mul => "mul"@,
        SystemOperator::Sub => "sub"@,
        SystemOperator::Abs => "abs"@,
        SystemOperator::Neg => "neg"@,
        SystemOperator::Ceiling => "ceiling"@,
        SystemOperator::Floor => "floor"@,
        SystemOperator::Round => "round"@,
        SystemOperator::Truncate => "truncate"@,
        SystemOperator::Sqrt => "sqrt"@,
        SystemOperator::Atan => "atan"@,
        SystemOperator::Cos => "cos"@,
        SystemOperator::Sin => "sin"@,
        SystemOperator::Exp => "exp"@,
        SystemOperator::Ln => "ln"@,
        SystemOperator::Log => "log"@,
        SystemOperator::Rand => "rand"@,
        SystemOperator::Srand => "srand"@,
        SystemOperator::Rrand => "rrand"@,
        SystemOperator::Array => "array"@,
        SystemOperator::StartArray => "["@,
        SystemOperator::EndArray => "]"@,
        SystemOperator::Length => "length"@,
        SystemOperator::Get => "get"@,
        SystemOperator::Put => "put"@,
        SystemOperator::GetInterval => "getinterval"@,
        SystemOperator::PutInterval => "putinterval"@,
        SystemOperator::Astore => "astore"@,
        SystemOperator::Aload => "aload"@,
    }
}

/// The system dictionary binds the name of each operator to that operator, and to no
/// other.
#[verifier::rlimit(100)]
pub proof fn lemma_system_names(op: SystemOperator)
    ensures
        system_procedures().contains_key(operator_name(op)),
        system_procedures()[operator_name(op)] == Procedure::System(op),
{
    reveal_strlit("dup");
    reveal_strlit("exch");
    reveal_strlit("pop");
    reveal_strlit("copy");
    reveal_strlit("roll");
    reveal_strlit("index");
    reveal_strlit("mark");
    reveal_strlit("clear");
    reveal_strlit("count");
    reveal_strlit("counttomark");
    reveal_strlit("cleartomark");
    reveal_strlit("add");
    reveal_strlit("div");
    reveal_strlit("idiv");
    reveal_strlit("mod");
    reveal_strlit("mul");
    reveal_strlit("sub");
    reveal_strlit("abs");
    reveal_strlit("neg");
    reveal_strlit("ceiling");
    reveal_strlit("floor");
    reveal_strlit("round");
    reveal_strlit("truncate");
    reveal_strlit("sqrt");
    reveal_strlit("atan");
    reveal_strlit("cos");
    reveal_strlit("sin");
    reveal_strlit("exp");
    reveal_strlit("ln");
    reveal_strlit("log");
    reveal_strlit("rand");
    reveal_strlit("srand");
    reveal_strlit("rrand");
    reveal_strlit("array");
    reveal_strlit("[");
    reveal_strlit("]");
    reveal_strlit("length");
    reveal_strlit("get");
    reveal_strlit("put");
    reveal_strlit("getinterval");
    reveal_strlit("putinterval");
    reveal_strlit("astore");
    reveal_strlit("aload");
    assert("dup"@.len() == 3 && "dup"@[0] == 'd' && "dup"@[1] == 'u' && "dup"@[2] == 'p');
    assert("exch"@.len() == 4 && "exch"@[0] == 'e' && "exch"@[1] == 'x' && "exch"@[2] == 'c'
        && "exch"@[3] == 'h');
    assert("pop"@.len() == 3 && "pop"@[0] == 'p' && "pop"@[1] == 'o' && "pop"@[2] == 'p');
    assert("copy"@.len() == 4 && "copy"@[0] == 'c' && "copy"@[1] == 'o' && "copy"@[2] == 'p'
        && "copy"@[3] == 'y');
    assert("roll"@.len() == 4 && "roll"@[0] == 'r' && "roll"@[1] == 'o' && "roll"@[2] == 'l'
        && "roll"@[3] == 'l');
    assert("index"@.len() == 5 && "index"@[0] == 'i' && "index"@[1] == 'n' && "index"@[2] == 'd'
        && "index"@[3] == 'e' && "index"@[4] == 'x');
    assert("mark"@.len() == 4 && "mark"@[0] == 'm' && "mark"@[1] == 'a' && "mark"@[2] == 'r'
        && "mark"@[3] == 'k');
    assert("clear"@.len() == 5 && "clear"@[0] == 'c' && "clear"@[1] == 'l' && "clear"@[2] == 'e'
        && "clear"@[3] == 'a' && "clear"@[4] == 'r');
    assert("count"@.len() == 5 && "count"@[0] == 'c' && "count"@[1] == 'o' && "count"@[2] == 'u'
        && "count"@[3] == 'n' && "count"@[4] == 't');
    assert("counttomark"@.len() == 11 && "counttomark"@[0] == 'c' && "counttomark"@[1] == 'o'
        && "counttomark"@[2] == 'u' && "counttomark"@[3] == 'n' && "counttomark"@[4] == 't'
        && "counttomark"@[5] == 't' && "counttomark"@[6] == 'o' && "counttomark"@[7] == 'm'
        && "counttomark"@[8] == 'a' && "counttomark"@[9] == 'r' && "counttomark"@[10] == 'k');
    assert("cleartomark"@.len() == 11 && "cleartomark"@[0] == 'c' && "cleartomark"@[1] == 'l'
        && "cleartomark"@[2] == 'e' && "cleartomark"@[3] == 'a' && "cleartomark"@[4] == 'r'
        && "cleartomark"@[5] == 't' && "cleartomark"@[6] == 'o' && "cleartomark"@[7] == 'm'
        && "cleartomark"@[8] == 'a' && "cleartomark"@[9] == 'r' && "cleartomark"@[10] == 'k');
    assert("add"@.len() == 3 && "add"@[0] == 'a' && "add"@[1] == 'd' && "add"@[2] == 'd');
    assert("div"@.len() == 3 && "div"@[0] == 'd' && "div"@[1] == 'i' && "div"@[2] == 'v');
    assert("idiv"@.len() == 4 && "idiv"@[0] == 'i' && "idiv"@[1] == 'd' && "idiv"@[2] == 'i'
        && "idiv"@[3] == 'v');
    assert("mod"@.len() == 3 && "mod"@[0] == 'm' && "mod"@[1] == 'o' && "mod"@[2] == 'd');
    assert("mul"@.len() == 3 && "mul"@[0] == 'm' && "mul"@[1] == 'u' && "mul"@[2] == 'l');
    assert("sub"@.len() == 3 && "sub"@[0] == 's' && "sub"@[1] == 'u' && "sub"@[2] == 'b');
    assert("abs"@.len() == 3 && "abs"@[0] == 'a' && "abs"@[1] == 'b' && "abs"@[2] == 's');
    assert("neg"@.len() == 3 && "neg"@[0] == 'n' && "neg"@[1] == 'e' && "neg"@[2] == 'g');
    assert("ceiling"@.len() == 7 && "ceiling"@[0] == 'c' && "ceiling"@[1] == 'e'
        && "ceiling"@[2] == 'i' && "ceiling"@[3] == 'l' && "ceiling"@[4] == 'i'
        && "ceiling"@[5] == 'n' && "ceiling"@[6] == 'g');
    assert("floor"@.len() == 5 && "floor"@[0] == 'f' && "floor"@[1] == 'l' && "floor"@[2] == 'o'
        && "floor"@[3] == 'o' && "floor"@[4] == 'r');
    assert("round"@.len() == 5 && "round"@[0] == 'r' && "round"@[1] == 'o' && "round"@[2] == 'u'
        && "round"@[3] == 'n' && "round"@[4] == 'd');
    assert("truncate"@.len() == 8 && "truncate"@[0] == 't' && "truncate"@[1] == 'r'
        && "truncate"@[2] == 'u' && "truncate"@[3] == 'n' && "truncate"@[4] == 'c'
        && "truncate"@[5] == 'a' && "truncate"@[6] == 't' && "truncate"@[7] == 'e');
    assert("sqrt"@.len() == 4 && "sqrt"@[0] == 's' && "sqrt"@[1] == 'q' && "sqrt"@[2] == 'r'
        && "sqrt"@[3] == 't');
    assert("atan"@.len() == 4 && "atan"@[0] == 'a' && "atan"@[1] == 't' && "atan"@[2] == 'a'
        && "atan"@[3] == 'n');
    assert("cos"@.len() == 3 && "cos"@[0] == 'c' && "cos"@[1] == 'o' && "cos"@[2] == 's');
    assert("sin"@.len() == 3 && "sin"@[0] == 's' && "sin"@[1] == 'i' && "sin"@[2] == 'n');
    assert("exp"@.len() == 3 && "exp"@[0] == 'e' && "exp"@[1] == 'x' && "exp"@[2] == 'p');
    assert("ln"@.len() == 2 && "ln"@[0] == 'l' && "ln"@[1] == 'n');
    assert("log"@.len() == 3 && "log"@[0] == 'l' && "log"@[1] == 'o' && "log"@[2] == 'g');
    assert("rand"@.len() == 4 && "rand"@[0] == 'r' && "rand"@[1] == 'a' && "rand"@[2] == 'n'
        && "rand"@[3] == 'd');
    assert("srand"@.len() == 5 && "srand"@[0] == 's' && "srand"@[1] == 'r' && "srand"@[2] == 'a'
        && "srand"@[3] == 'n' && "srand"@[4] == 'd');
    assert("rrand"@.len() == 5 && "rrand"@[0] == 'r' && "rrand"@[1] == 'r' && "rrand"@[2] == 'a'
        && "rrand"@[3] == 'n' && "rrand"@[4] == 'd');
    assert("array"@.len() == 5 && "array"@[0] == 'a' && "array"@[1] == 'r' && "array"@[2] == 'r'
        && "array"@[3] == 'a' && "array"@[4] == 'y');
    assert("["@.len() == 1 && "["@[0] == '[');
    assert("]"@.len() == 1 && "]"@[0] == ']');
    assert("length"@.len() == 6 && "length"@[0] == 'l' && "length"@[1] == 'e'
        && "length"@[2] == 'n' && "length"@[3] == 'g' && "length"@[4] == 't'
        && "length"@[5] == 'h');
    assert("get"@.len() == 3 && "get"@[0] == 'g' && "get"@[1] == 'e' && "get"@[2] == 't');
    assert("put"@.len() == 3 && "put"@[0] == 'p' && "put"@[1] == 'u' && "put"@[2] == 't');
    assert("getinterval"@.len() == 11 && "getinterval"@[0] == 'g' && "getinterval"@[1] == 'e'
        && "getinterval"@[2] == 't' && "getinterval"@[3] == 'i' && "getinterval"@[4] == 'n'
        && "getinterval"@[5] == 't' && "getinterval"@[6] == 'e' && "getinterval"@[7] == 'r'
        && "getinterval"@[8] == 'v' && "getinterval"@[9] == 'a' && "getinterval"@[10] == 'l');
    assert("putinterval"@.len() == 11 && "putinterval"@[0] == 'p' && "putinterval"@[1] == 'u'
        && "putinterval"@[2] == 't' && "putinterval"@[3] == 'i' && "putinterval"@[4] == 'n'
        && "putinterval"@[5] == 't' && "putinterval"@[6] == 'e' && "putinterval"@[7] == 'r'
        && "putinterval"@[8] == 'v' && "putinterval"@[9] == 'a' && "putinterval"@[10] == 'l');
    assert("astore"@.len() == 6 && "astore"@[0] == 'a' && "astore"@[1] == 's'
        && "astore"@[2] == 't' && "astore"@[3] == 'o' && "astore"@[4] == 'r'
        && "astore"@[5] == 'e');
    assert("aload"@.len() == 5 && "aload"@[0] == 'a' && "aload"@[1] == 'l' && "aload"@[2] == 'o'
        && "aload"@[3] == 'a' && "aload"@[4] == 'd');
    match op {
        SystemOperator::Dup => {},
        SystemOperator::Exch => {},
        SystemOperator::Pop => {},
        SystemOperator::Copy => {},
        SystemOperator::Roll => {},
        SystemOperator::Index => {},
        SystemOperator::Mark => {},
        SystemOperator::Clear => {},
        SystemOperator::Count => {},
        SystemOperator::CountToMark => {},
        SystemOperator::ClearToMark => {},
        SystemOperator::Add => {},
        SystemOperator::Div => {},
        SystemOperator::IDiv => {},
        SystemOperator::Mod => {},
        SystemOperator::Mul => {},
        SystemOperator::Sub => {},
        SystemOperator::Abs => {},
        SystemOperator::Neg => {},
        SystemOperator::Ceiling => {},
        SystemOperator::Floor => {},
        SystemOperator::Round => {},
        SystemOperator::Truncate => {},
        SystemOperator::Sqrt => {},
        SystemOperator::Atan => {},
        SystemOperator::Cos => {},
        SystemOperator::Sin => {},
        SystemOperator::Exp => {},
        SystemOperator::Ln => {},
        SystemOperator::Log => {},
        SystemOperator::Rand => {},
        SystemOperator::Srand => {},
        SystemOperator::Rrand => {},
        SystemOperator::Array => {},
        SystemOperator::StartArray => {},
        SystemOperator::EndArray => {},
        SystemOperator::Length => {},
        SystemOperator::Get => {},
        SystemOperator::Put => {},
        SystemOperator::GetInterval => {},
        SystemOperator::PutInterval => {},
        SystemOperator::Astore => {},
        SystemOperator::Aload => {},
    }
}

/// The system dictionary: each operator of the system under its name.
pub fn system_dictionary() -> (r: Dictionary)
    ensures
        r@ == system_procedures(),
{
    let mut d = Dictionary::new();
    d.insert("dup".to_owned(), Procedure::System(SystemOperator::Dup));
    d.insert("exch".to_owned(), Procedure::System(SystemOperator::Exch));
    d.insert("pop".to_owned(), Procedure::System(SystemOperator::Pop));
    d.insert("copy".to_owned(), Procedure::System(SystemOperator::Copy));
    d.insert("roll".to_owned(), Procedure::System(SystemOperator::Roll));
    d.insert("index".to_owned(), Procedure::System(SystemOperator::Index));
    d.insert("mark".to_owned(), Procedure::System(SystemOperator::Mark));
    d.insert("clear".to_owned(), Procedure::System(SystemOperator::Clear));
    d.insert("count".to_owned(), Procedure::System(SystemOperator::Count));
    d.insert("counttomark".to_owned(), Procedure::System(SystemOperator::CountToMark));
    d.insert("cleartomark".to_owned(), Procedure::System(SystemOperator::ClearToMark));
    d.insert("add".to_owned(), Procedure::System(SystemOperator::Add));
    d.insert("div".to_owned(), Procedure::System(SystemOperator::Div));
    d.insert("idiv".to_owned(), Procedure::System(SystemOperator::IDiv));
    d.insert("mod".to_owned(), Procedure::System(SystemOperator::Mod));
    d.insert("mul".to_owned(), Procedure::System(SystemOperator::Mul));
    d.insert("sub".to_owned(), Procedure::System(SystemOperator::Sub));
    d.insert("abs".to_owned(), Procedure::System(SystemOperator::Abs));
    d.insert("neg".to_owned(), Procedure::System(SystemOperator::Neg));
    d.insert("ceiling".to_owned(), Procedure::System(SystemOperator::Ceiling));
    d.insert("floor".to_owned(), Procedure::System(SystemOperator::Floor));
    d.insert("round".to_owned(), Procedure::System(SystemOperator::Round));
    d.insert("truncate".to_owned(), Procedure::System(SystemOperator::Truncate));
    d.insert("sqrt".to_owned(), Procedure::System(SystemOperator::Sqrt));
    d.insert("atan".to_owned(), Procedure::System(SystemOperator::Atan));
    d.insert("cos".to_owned(), Procedure::System(SystemOperator::Cos));
    d.insert("sin".to_owned(), Procedure::System(SystemOperator::Sin));
    d.insert("exp".to_owned(), Procedure::System(SystemOperator::Exp));
    d.insert("ln".to_owned(), Procedure::System(SystemOperator::Ln));
    d.insert("log".to_owned(), Procedure::System(SystemOperator::Log));
    d.insert("rand".to_owned(), Procedure::System(SystemOperator::Rand));
    d.insert("srand".to_owned(), Procedure::System(SystemOperator::Srand));
    d.insert("rrand".to_owned(), Procedure::System(SystemOperator::Rrand));
    d.insert("array".to_owned(), Procedure::System(SystemOperator::Array));
    d.insert("[".to_owned(), Procedure::System(SystemOperator::StartArray));
    d.insert("]".to_owned(), Procedure::System(SystemOperator::EndArray));
    d.insert("length".to_owned(), Procedure::System(SystemOperator::Length));
    d.insert("get".to_owned(), Procedure::System(SystemOperator::Get));
    d.insert("put".to_owned(), Procedure::System(SystemOperator::Put));
    d.insert("getinterval".to_owned(), Procedure::System(SystemOperator::GetInterval));
    d.insert("putinterval".to_owned(), Procedure::System(SystemOperator::PutInterval));
    d.insert("astore".to_owned(), Procedure::System(SystemOperator::Astore));
    d.insert("aload".to_owned(), Procedure::System(SystemOperator::Aload));
    d
}

/// What the operator `op` needs of the state it runs on: an operand that makes `roll`
/// or `rand` panic is left out, and room for one more array where it makes one.
pub open spec fn system_pre(op: SystemOperator, st: InterpreterState) -> bool {
    match op {
        SystemOperator::Roll => !roll_overflows(st.operand_stack@),
        SystemOperator::Rand => lcg_next(st.rng.spec_state()) != i32::MIN,
        SystemOperator::Array | SystemOperator::EndArray | SystemOperator::GetInterval => st.arrays@.len()
            < usize::MAX,
        _ => true,
    }
}

/// A step as the result of an operator: `Ok` for every step, the same error otherwise.
pub open spec fn unit(r: Result<Step>) -> Result<()> {
    match r {
        Ok(_) => Ok(()),
        Err(e) => Err(e),
    }
}

/// The operator ran to its end: it failed, or it is done.
pub open spec fn ran(r: Result<Step>) -> bool {
    match r {
        Ok(Step::Done) => true,
        Ok(_) => false,
        Err(_) => true,
    }
}

/// A step as the outcome of an operator with a real case: done, or the operands it took
/// off the stack.
pub open spec fn operands_of(r: Result<Step>) -> Result<Option<Seq<Object>>> {
    match r {
        Ok(Step::RealOperator(_, v)) => Ok(Some(v@)),
        Ok(_) => Ok(None),
        Err(e) => Err(e),
    }
}

/// An operator with a real case ends done, failed, or with its operands handed back under
/// its own name.
pub open spec fn real_step(op: SystemOperator, r: Result<Step>) -> bool {
    match r {
        Ok(Step::Done) => true,
        Ok(Step::RealOperator(o, _)) => o == op,
        Ok(_) => false,
        Err(_) => true,
    }
}

/// The outcome of running the operator `op` on `before`.
pub open spec fn system_post(
    op: SystemOperator,
    before: InterpreterState,
    after: InterpreterState,
    r: Result<Step>,
) -> bool {
    let u = unit(r);
    match op {
        SystemOperator::Dup => ran(r) && dup_post(before, after, u),
        SystemOperator::Exch => ran(r) && exch_post(before, after, u),
        SystemOperator::Pop => ran(r) && pop_post(before, after, u),
        SystemOperator::Copy => ran(r) && copy_post(before, after, u),
        SystemOperator::Roll => ran(r) && roll_post(before, after, u),
        SystemOperator::Index => ran(r) && index_post(before, after, u),
        SystemOperator::Mark => ran(r) && mark_post(before, after, u),
        SystemOperator::Clear => ran(r) && clear_post(before, after, u),
        SystemOperator::Count => ran(r) && count_post(before, after, u),
        SystemOperator::CountToMark => ran(r) && counttomark_post(before, after, u),
        SystemOperator::ClearToMark => ran(r) && cleartomark_post(before, after, u),
        SystemOperator::Add => real_step(op, r) && arithmetic_post(
            Arithmetic::Add,
            before,
            after,
            operands_of(r),
        ),
        SystemOperator::Sub => real_step(op, r) && arithmetic_post(
            Arithmetic::Sub,
            before,
            after,
            operands_of(r),
        ),
        SystemOperator::Mul => real_step(op, r) && arithmetic_post(
            Arithmetic::Mul,
            before,
            after,
            operands_of(r),
        ),
        SystemOperator::IDiv => ran(r) && idiv_post(before, after, u),
        SystemOperator::Mod => ran(r) && imod_post(before, after, u),
        SystemOperator::Abs => real_step(op, r) && num_unary_post(
            Unary::Abs,
            before,
            after,
            operands_of(r),
        ),
        SystemOperator::Neg => real_step(op, r) && num_unary_post(
            Unary::Neg,
            before,
            after,
            operands_of(r),
        ),
        SystemOperator::Ceiling => real_step(op, r) && num_unary_post(
            Unary::Ceiling,
            before,
            after,
            operands_of(r),
        ),
        SystemOperator::Floor => real_step(op, r) && num_unary_post(
            Unary::Floor,
            before,
            after,
            operands_of(r),
        ),
        SystemOperator::Round => real_step(op, r) && num_unary_post(
            Unary::Round,
            before,
            after,
            operands_of(r),
        ),
        SystemOperator::Truncate => real_step(op, r) && num_unary_post(
            Unary::Truncate,
            before,
            after,
            operands_of(r),
        ),
        SystemOperator::Div => real_step(op, r) && arithmetic_post(
            Arithmetic::Div,
            before,
            after,
            operands_of(r),
        ),
        SystemOperator::Sqrt | SystemOperator::Cos | SystemOperator::Sin | SystemOperator::Ln
        | SystemOperator::Log => real_step(op, r) && real_unary_post(
            before,
            after,
            operands_of(r),
        ),
        SystemOperator::Atan | SystemOperator::Exp => real_step(op, r) && real_binary_post(
            before,
            after,
            operands_of(r),
        ),
        SystemOperator::Rand => ran(r) && rand_post(before, after, u),
        SystemOperator::Srand => ran(r) && srand_post(before, after, u),
        SystemOperator::Rrand => ran(r) && rrand_post(before, after, u),
        SystemOperator::Array => ran(r) && array_post(before, after, u),
        SystemOperator::StartArray => ran(r) && mark_post(before, after, u),
        SystemOperator::EndArray => ran(r) && endarray_post(before, after, u),
        SystemOperator::Length => ran(r) && length_post(before, after, u),
        SystemOperator::Get => ran(r) && get_post(before, after, u),
        SystemOperator::Put => ran(r) && put_post(before, after, u),
        SystemOperator::GetInterval => ran(r) && getinterval_post(before, after, u),
        SystemOperator::PutInterval => ran(r) && putinterval_post(before, after, u),
        SystemOperator::Astore => ran(r) && astore_post(before, after, u),
        SystemOperator::Aload => ran(r) && aload_post(before, after, u),
    }
}

/// An operator's result as a step.
fn finished(r: Result<()>) -> (s: Result<Step>)
    ensures
        ran(s),
        unit(s) == r,
{
    match r {
        Ok(u) => {
            assert(r == Ok::<(), Error>(u));
            Ok(Step::Done)
        },
        Err(e) => Err(e),
    }
}

/// A step for an operator with a real case: done, or its operands handed back.
fn deferred(op: SystemOperator, r: Result<Option<Vec<Object>>>) -> (s: Result<Step>)
    ensures
        real_step(op, s),
        operands_of(s) == operands_view(r),
{
    match r {
        Ok(None) => Ok(Step::Done),
        Ok(Some(v)) => Ok(Step::RealOperator(op, v)),
        Err(e) => Err(e),
    }
}

/// Runs the operator `op` on `state`: the operators on integers and arrays run here; an
/// operator on reals, or one whose integer result does not fit, takes its operands off the
/// stack and hands them to the caller.
pub fn run_system(op: SystemOperator, state: &mut InterpreterState) -> (r: Result<Step>)
    requires
        system_pre(op, *old(state)),
    ensures
        system_post(op, *old(state), *final(state), r),
{
    match op {
        SystemOperator::Dup => finished(crate::operators::dup(state)),
        SystemOperator::Exch => finished(crate::operators::exch(state)),
        SystemOperator::Pop => finished(crate::operators::pop(state)),
        SystemOperator::Copy => finished(crate::operators::copy(state)),
        SystemOperator::Roll => finished(crate::operators::roll(state)),
        SystemOperator::Index => finished(crate::operators::index(state)),
        SystemOperator::Mark => finished(crate::operators::mark(state)),
        SystemOperator::Clear => finished(crate::operators::clear(state)),
        SystemOperator::Count => finished(crate::operators::count(state)),
        SystemOperator::CountToMark => finished(crate::operators::counttomark(state)),
        SystemOperator::ClearToMark => finished(crate::operators::cleartomark(state)),
        SystemOperator::Add => deferred(op, arithmetic(state, Arithmetic::Add)),
        SystemOperator::Sub => deferred(op, arithmetic(state, Arithmetic::Sub)),
        SystemOperator::Mul => deferred(op, arithmetic(state, Arithmetic::Mul)),
        SystemOperator::IDiv => finished(crate::operators::idiv(state)),
        SystemOperator::Mod => finished(crate::operators::imod(state)),
        SystemOperator::Abs => deferred(op, num_unary(state, Unary::Abs)),
        SystemOperator::Neg => deferred(op, num_unary(state, Unary::Neg)),
        SystemOperator::Ceiling => deferred(op, num_unary(state, Unary::Ceiling)),
        SystemOperator::Floor => deferred(op, num_unary(state, Unary::Floor)),
        SystemOperator::Round => deferred(op, num_unary(state, Unary::Round)),
        SystemOperator::Truncate => deferred(op, num_unary(state, Unary::Truncate)),
        SystemOperator::Div => deferred(op, arithmetic(state, Arithmetic::Div)),
        SystemOperator::Sqrt | SystemOperator::Ln | SystemOperator::Log => deferred(
            op,
            real_unary(state),
        ),
        SystemOperator::Cos => deferred(op, crate::operators::cos(state)),
        SystemOperator::Sin => deferred(op, crate::operators::sin(state)),
        SystemOperator::Atan => deferred(op, crate::operators::atan(state)),
        SystemOperator::Exp => deferred(op, real_binary(state)),
        SystemOperator::Rand => finished(crate::operators::rand(state)),
        SystemOperator::Srand => finished(crate::operators::srand(state)),
        SystemOperator::Rrand => finished(crate::operators::rrand(state)),
        SystemOperator::Array => finished(crate::operators::array(state)),
        SystemOperator::StartArray => finished(crate::operators::mark(state)),
        SystemOperator::EndArray => finished(crate::operators::endarray(state)),
        SystemOperator::Length => finished(crate::operators::length(state)),
        SystemOperator::Get => finished(crate::operators::get(state)),
        SystemOperator::Put => finished(crate::operators::put(state)),
        SystemOperator::GetInterval => finished(crate::operators::getinterval(state)),
        SystemOperator::PutInterval => finished(crate::operators::putinterval(state)),
        SystemOperator::Astore => finished(crate::operators::astore(state)),
        SystemOperator::Aload => finished(crate::operators::aload(state)),
    }
}

/// The procedure bound to `name` in the topmost dictionary of `dicts` (the last one)
/// that binds it.
pub open spec fn topmost(dicts: Seq<Dictionary>, name: Seq<char>) -> Option<Procedure>
    decreases dicts.len(),
{
    if dicts.len() == 0 {
        None
    } else if dicts.last()@.contains_key(name) {
        Some(dicts.last()@[name])
    } else {
        topmost(dicts.drop_last(), name)
    }
}

/// The topmost dictionary that binds `name` decides its procedure.
proof fn lemma_topmost_at(dicts: Seq<Dictionary>, name: Seq<char>, i: int)
    requires
        0 <= i < dicts.len(),
        dicts[i]@.contains_key(name),
        forall|j: int| i < j < dicts.len() ==> !(#[trigger] dicts[j]@).contains_key(name),
    ensures
        topmost(dicts, name) == Some(dicts[i]@[name]),
    decreases dicts.len(),
{
    if i < dicts.len() - 1 {
        let t = dicts.drop_last();
        assert(!dicts[dicts.len() - 1]@.contains_key(name));
        assert forall|j: int| i < j < t.len() implies !(#[trigger] t[j]@).contains_key(name) by {
            assert(t[j] == dicts[j]);
        }
        lemma_topmost_at(t, name, i);
    }
}

/// A name that no dictionary binds has no procedure.
proof fn lemma_topmost_none(dicts: Seq<Dictionary>, name: Seq<char>)
    requires
        forall|j: int| 0 <= j < dicts.len() ==> !(#[trigger] dicts[j]@).contains_key(name),
    ensures
        topmost(dicts, name) is None,
    decreases dicts.len(),
{
    if dicts.len() > 0 {
        let t = dicts.drop_last();
        assert(!dicts[dicts.len() - 1]@.contains_key(name));
        assert forall|j: int| 0 <= j < t.len() implies !(#[trigger] t[j]@).contains_key(name) by {
            assert(t[j] == dicts[j]);
        }
        lemma_topmost_none(t, name);
    }
}

/// A dictionary pushed on the dictionary stack decides the names it binds and leaves the
/// others as the stack below decides them.
pub proof fn lemma_topmost_after_push(dicts: Seq<Dictionary>, d: Dictionary, name: Seq<char>)
    ensures
        topmost(dicts.push(d), name) == if d@.contains_key(name) {
            Some(d@[name])
        } else {
            topmost(dicts, name)
        },
{
    assert(dicts.push(d).drop_last() =~= dicts);
}

/// What evaluation works on: the operators' state (operand stack, arrays, random number
/// generator), the execution stack and the dictionary stack.
pub struct ExecutionState {
    pub interpreter: InterpreterState,
    pub execution_stack: Stack<Object>,
    pub dict_stack: Stack<Dictionary>,
}

/// A state with empty stacks, no arrays and a generator seeded with 0.
pub open spec fn fresh(st: ExecutionState) -> bool {
    &&& st.interpreter.operand_stack@ == Seq::<Object>::empty()
    &&& st.interpreter.arrays@.len() == 0
    &&& st.interpreter.rng.spec_seed() == 0
    &&& st.interpreter.rng.spec_state() == 0
    &&& !st.interpreter.is_packing
    &&& st.execution_stack@ == Seq::<Object>::empty()
}

impl Default for ExecutionState {
    /// A fresh state whose dictionary stack holds the system dictionary.
    fn default() -> (r: Self)
        ensures
            fresh(r),
            r.dict_stack@.len() == 1,
            r.dict_stack@[0]@ == system_procedures(),
    {
        let mut dict_stack = Stack::new();
        dict_stack.push(system_dictionary());
        ExecutionState {
            interpreter: InterpreterState::new(),
            execution_stack: Stack::new(),
            dict_stack,
        }
    }
}

impl ExecutionState {
    /// A fresh state with an empty dictionary stack.
    pub fn new() -> (r: Self)
        ensures
            fresh(r),
            r.dict_stack@ == Seq::<Dictionary>::empty(),
    {
        ExecutionState {
            interpreter: InterpreterState::new(),
            execution_stack: Stack::new(),
            dict_stack: Stack::new(),
        }
    }

    /// The procedure bound to `name` in the topmost dictionary that binds it.
    pub fn find(&self, name: &String) -> (r: Option<Procedure>)
        ensures
            r == topmost(self.dict_stack@, name@),
    {
        let binds = |d: &Dictionary| -> (b: bool)
            ensures
                b == d@.contains_key(name@),
            { d.contains_key(name) };
        let found = self.dict_stack.search(binds);
        match found {
            None => {
                proof {
                    lemma_topmost_none(self.dict_stack@, name@);
                }
                None
            },
            Some(d) => {
                proof {
                    let i = choose|i: int|
                        0 <= i < self.dict_stack@.len() && found == Some(&self.dict_stack@[i])
                            && call_ensures(binds, (&self.dict_stack@[i],), true) && forall|j: int|
                            i < j < self.dict_stack@.len() ==> call_ensures(
                            binds,
                            (&self.dict_stack@[j],),
                            false,
                        );
                    lemma_topmost_at(self.dict_stack@, name@, i);
                }
                match d.get(name) {
                    Some(p) => Some(*p),
                    None => None,
                }
            },
        }
    }
}

/// Whether `roll` would divide by zero or overflow on the stack `stack`.
fn roll_would_overflow(stack: &Vec<Object>) -> (b: bool)
    ensures
        b == roll_overflows(stack@),
{
    let n = stack.len();
    if n < 2 {
        return false;
    }
    match (stack[n - 2], stack[n - 1]) {
        (Object::Integer(count), Object::Integer(shift)) => {
            let sum = count as i64 + shift as i64;
            count == 0 || sum > 2147483647i64 || sum < -2147483648i64 || (sum
                == -2147483648i64 && count == -1)
        },
        _ => false,
    }
}

/// Whether the operator `op` can run on `state`: what `system_pre` asks of it.
pub fn system_can_run(op: SystemOperator, state: &InterpreterState) -> (b: bool)
    ensures
        b == system_pre(op, *state),
{
    match op {
        SystemOperator::Roll => !roll_would_overflow(&state.operand_stack),
        SystemOperator::Rand => state.rng.peek_next() != i32::MIN,
        SystemOperator::Array | SystemOperator::EndArray | SystemOperator::GetInterval => state.arrays.len()
            < usize::MAX,
        _ => true,
    }
}

} // verus!
