//! Operations, as read from the lines of a script.
use vstd::prelude::*;
use crate::chars::{chars_of, string_of};
use crate::lexical::{
    parse_decimal, parse_usize, skip_white_space, skip_white_space_back, trim, trim_start,
};

verus! {

/// One command of a script. `Invalid` stands for any line that is not a command;
/// applying it does nothing.
#[derive(Clone, Debug, PartialEq, Eq)]
pub enum Operation {
    /// `1 <text>`: add the text at the end of the buffer.
    Append(String),
    /// `2 <n>`: remove the last `n` characters of the buffer.
    Delete(usize),
    /// `3 <i>`: print the character at 1-based position `i` of the buffer.
    Print(usize),
    /// `4`: revert the most recent append or delete that has not been reverted yet.
    Undo,
    /// Anything else.
    Invalid,
}

/// What an `Operation` means, with its text as a character sequence.
pub enum OpModel {
    Append(Seq<char>),
    Delete(nat),
    Print(nat),
    Undo,
    Invalid,
}

impl View for Operation {
    type V = OpModel;

    open spec fn view(&self) -> OpModel {
        match self {
            Operation::Append(s) => OpModel::Append(s@),
            Operation::Delete(n) => OpModel::Delete(*n as nat),
            Operation::Print(i) => OpModel::Print(*i as nat),
            Operation::Undo => OpModel::Undo,
            Operation::Invalid => OpModel::Invalid,
        }
    }
}

/// `s` without the one separator character that follows a command code, if any.
pub open spec fn drop_separator(s: Seq<char>) -> Seq<char> {
    if s.len() > 0 {
        s.drop_first()
    } else {
        s
    }
}

/// The operation that a line denotes: leading white space is skipped, the first
/// character is the command code, and one separator character after it is dropped.
/// The argument of `1` is the rest verbatim; that of `2` and `3` is a decimal number
/// with white space around it.
pub open spec fn parse_op(line: Seq<char>) -> OpModel {
    let t = trim_start(line);
    if t.len() == 0 {
        OpModel::Invalid
    } else {
        let code = t[0];
        let arg = drop_separator(t.drop_first());
        if code == '1' {
            OpModel::Append(arg)
        } else if code == '2' || code == '3' {
            match parse_usize(trim(arg)) {
                Some(n) => if code == '2' {
                    OpModel::Delete(n as nat)
                } else {
                    OpModel::Print(n as nat)
                },
                None => OpModel::Invalid,
            }
        } else if code == '4' {
            OpModel::Undo
        } else {
            OpModel::Invalid
        }
    }
}

/// Parsing depends on the characters of the line alone: equal lines denote the
/// same operation. (`parse_op` is total, and `parse_operation` has no `requires`.)
pub proof fn lemma_parse_op_deterministic(a: Seq<char>, b: Seq<char>)
    requires
        a == b,
    ensures
        parse_op(a) == parse_op(b),
{
}

/// Skips the separator character at `start`, if `start..end` is not empty.
fn remove_sep_space(v: &Vec<char>, start: usize, end: usize) -> (i: usize)
    requires
        start <= end <= v.len(),
    ensures
        start <= i <= end,
        v@.subrange(i as int, end as int) == drop_separator(v@.subrange(start as int, end as int)),
{
    if start < end {
        assert(v@.subrange(start + 1, end as int) =~= v@.subrange(start as int, end as int).drop_first());
        start + 1
    } else {
        start
    }
}

/// The delete (`op == '2'`) or print (`op == '3'`) operation whose argument is
/// `start..end` of `v`.
fn parse_delete_or_print(op: char, v: &Vec<char>, start: usize, end: usize) -> (r: Operation)
    requires
        start <= end <= v.len(),
    ensures
        r@ == (match parse_usize(trim(v@.subrange(start as int, end as int))) {
            Some(n) => if op == '2' {
                OpModel::Delete(n as nat)
            } else if op == '3' {
                OpModel::Print(n as nat)
            } else {
                OpModel::Invalid
            },
            None => OpModel::Invalid,
        }),
{
    let a = skip_white_space(v, start, end);
    let b = skip_white_space_back(v, a, end);
    assert(trim(v@.subrange(start as int, end as int)) == v@.subrange(a as int, b as int));
    match parse_decimal(v, a, b) {
        Some(n) => if op == '2' {
            Operation::Delete(n)
        } else if op == '3' {
            Operation::Print(n)
        } else {
            Operation::Invalid
        },
        None => Operation::Invalid,
    }
}

/// The operation that the characters `start..end` of `v` denote.
pub fn parse_line(v: &Vec<char>, start: usize, end: usize) -> (r: Operation)
    requires
        start <= end <= v.len(),
    ensures
        r@ == parse_op(v@.subrange(start as int, end as int)),
{
    let ghost line = v@.subrange(start as int, end as int);
    let i = skip_white_space(v, start, end);
    if i == end {
        return Operation::Invalid;
    }
    let code = v[i];
    assert(trim_start(line).drop_first() =~= v@.subrange(i + 1, end as int));
    let a = remove_sep_space(v, i + 1, end);
    if code == '1' {
        Operation::Append(string_of(v, a, end))
    } else if code == '2' || code == '3' {
        parse_delete_or_print(code, v, a, end)
    } else if code == '4' {
        Operation::Undo
    } else {
        Operation::Invalid
    }
}

/// The operation that `line` denotes. Every line denotes one.
pub fn parse_operation(line: &str) -> (r: Operation)
    ensures
        r@ == parse_op(line@),
{
    let v = chars_of(line);
    assert(v@.subrange(0, v@.len() as int) =~= v@);
    parse_line(&v, 0, v.len())
}

impl<'a> From<&'a str> for Operation {
    /// Same as `parse_operation`.
    fn from(line: &'a str) -> (r: Operation)
        ensures
            r@ == parse_op(line@),
    {
        parse_operation(line)
    }
}

impl<'a> vstd::std_specs::convert::FromSpecImpl<&'a str> for Operation {
    /// `from` is described by `parse_op` over the views, not by a spec of its own.
    open spec fn obeys_from_spec() -> bool {
        false
    }

    open spec fn from_spec(line: &'a str) -> Operation {
        Operation::Invalid
    }
}

/// The position of the first line feed in `s`, or its length if it has none.
pub open spec fn line_end(s: Seq<char>) -> nat
    decreases s.len(),
{
    if s.len() == 0 || s[0] == '\n' {
        0
    } else {
        1 + line_end(s.drop_first())
    }
}

/// `l` without one carriage return at its end.
pub open spec fn strip_cr(l: Seq<char>) -> Seq<char> {
    if l.len() > 0 && l.last() == '\r' {
        l.drop_last()
    } else {
        l
    }
}

/// The lines of `s`, as `str::lines` gives them: split at each line feed, with a
/// carriage return before it removed; a final line feed ends the last line
/// rather than starting an empty one.
pub open spec fn lines_of(s: Seq<char>) -> Seq<Seq<char>>
    decreases s.len(),
{
    if s.len() == 0 {
        Seq::empty()
    } else {
        let k = line_end(s) as int;
        if k < s.len() {
            seq![strip_cr(s.take(k))] + lines_of(s.skip(k + 1))
        } else {
            seq![s]
        }
    }
}

/// The meaning of each of `ops`, in order.
pub open spec fn ops_view(ops: Seq<Operation>) -> Seq<OpModel> {
    ops.map_values(|o: Operation| o@)
}

/// The operation that each of `lines` denotes, in order.
pub open spec fn parse_lines(lines: Seq<Seq<char>>) -> Seq<OpModel> {
    lines.map_values(|l: Seq<char>| parse_op(l))
}

/// A script: its first line is the declared number of operations, which must read
/// as a `usize`; each line after it denotes one operation.
pub open spec fn parse_script(s: Seq<char>) -> Option<(usize, Seq<OpModel>)> {
    let ls = lines_of(s);
    let header = if ls.len() > 0 {
        ls[0]
    } else {
        Seq::empty()
    };
    match parse_usize(header) {
        Some(n) => Some((n, parse_lines(ls.skip(1)))),
        None => None,
    }
}

proof fn lemma_line_end(t: Seq<char>, k: int)
    requires
        0 <= k <= t.len(),
        forall|i: int| 0 <= i < k ==> t[i] != '\n',
        k == t.len() || t[k] == '\n',
    ensures
        line_end(t) == k,
    decreases k,
{
    if k > 0 {
        lemma_line_end(t.drop_first(), k - 1);
    }
}

/// The first line of the characters of `v` from `pos` on: its content ends at
/// `r.0`, and the line after it starts at `r.1`.
fn next_line(v: &Vec<char>, pos: usize) -> (r: (usize, usize))
    requires
        pos < v.len(),
    ensures
        pos <= r.0 <= r.1 <= v.len(),
        pos < r.1,
        lines_of(v@.skip(pos as int)) == seq![v@.subrange(pos as int, r.0 as int)] + lines_of(
            v@.skip(r.1 as int),
        ),
{
    let ghost s = v@.skip(pos as int);
    let mut j: usize = pos;
    while j < v.len() && v[j] != '\n'
        invariant
            pos <= j <= v.len(),
            forall|k: int| pos <= k < j ==> v@[k] != '\n',
        decreases v.len() - j,
    {
        j += 1;
    }
    proof {
        lemma_line_end(s, j - pos);
    }
    if j < v.len() {
        let e = if j > pos && v[j - 1] == '\r' {
            j - 1
        } else {
            j
        };
        assert(strip_cr(s.take(j - pos)) =~= v@.subrange(pos as int, e as int));
        assert(s.skip(j - pos + 1) =~= v@.skip(j + 1));
        (e, j + 1)
    } else {
        assert(s =~= v@.subrange(pos as int, j as int));
        assert(v@.skip(j as int) =~= Seq::<char>::empty());
        (j, j)
    }
}

/// Reads a script: `None` when its first line is not a number; else the declared
/// number of operations and the operation of each following line, in order.
pub fn parse(input: &str) -> (r: Option<(usize, Vec<Operation>)>)
    ensures
        match parse_script(input@) {
            Some((n, ops)) => match r {
                Some((m, parsed)) => m == n && ops_view(parsed@) == ops,
                None => false,
            },
            None => r is None,
        },
{
    let v = chars_of(input);
    assert(v@.skip(0) =~= v@);
    let (header_end, first) = if v.len() > 0 {
        next_line(&v, 0)
    } else {
        (0, 0)
    };
    let ghost ls = lines_of(v@);
    assert(ls.len() > 0 ==> ls[0] == v@.subrange(0, header_end as int));
    assert(ls.len() == 0 ==> v@.subrange(0, header_end as int) =~= Seq::<char>::empty());
    assert(v.len() > 0 ==> ls.skip(1) =~= lines_of(v@.skip(first as int))) by {
        if v.len() > 0 {
            let rest = lines_of(v@.skip(first as int));
            assert(ls == seq![v@.subrange(0, header_end as int)] + rest);
            assert((seq![v@.subrange(0, header_end as int)] + rest).skip(1) =~= rest);
        }
    }
    match parse_decimal(&v, 0, header_end) {
        None => None,
        Some(n) => {
            assert(v.len() > 0);
            let mut ops: Vec<Operation> = Vec::new();
            let mut pos: usize = first;
            while pos < v.len()
                invariant
                    pos <= v.len(),
                    ops_view(ops@) + parse_lines(lines_of(v@.skip(pos as int))) == parse_lines(
                        ls.skip(1),
                    ),
                decreases v.len() - pos,
            {
                let (e, next) = next_line(&v, pos);
                let op = parse_line(&v, pos, e);
                let ghost before = ops@;
                ops.push(op);
                assert(ops_view(ops@) =~= ops_view(before).push(op@));
                let ghost rest = lines_of(v@.skip(next as int));
                assert(parse_lines(seq![v@.subrange(pos as int, e as int)] + rest) =~= seq![op@]
                    + parse_lines(rest));
                assert(ops_view(ops@) + parse_lines(rest) =~= ops_view(before) + parse_lines(
                    lines_of(v@.skip(pos as int)),
                ));
                pos = next;
            }
            assert(v@.skip(pos as int) =~= Seq::<char>::empty());
            assert(ops_view(ops@) =~= ops_view(ops@) + parse_lines(lines_of(v@.skip(pos as int))));
            Some((n, ops))
        },
    }
}

} // verus!
