//! The buffer that operations edit, with its history of undoable changes.
use vstd::prelude::*;
use crate::chars::{chars_of, string_of};
use crate::ops::{ops_view, OpModel, Operation};

verus! {

/// The largest number of operations that one `apply` accepts.
pub const MAX_OPS: usize = 1_000_000;

/// The largest number of characters that the deletes of one `apply` may remove.
pub const MAX_DELETE_OPS: usize = MAX_OPS * 2;

/// The inverse of an append or a delete that was applied, kept for `Undo`.
#[derive(Debug)]
pub enum UndoableOperation {
    /// An append of this many characters: undoing it removes them from the end.
    Append(usize),
    /// A delete of these characters, in the order they were removed (the last
    /// character of the buffer first): undoing it puts them back in buffer order.
    Delete(Vec<char>),
}

/// What an `UndoableOperation` means.
pub enum UndoModel {
    Append(nat),
    Delete(Seq<char>),
}

impl View for UndoableOperation {
    type V = UndoModel;

    open spec fn view(&self) -> UndoModel {
        match self {
            UndoableOperation::Append(n) => UndoModel::Append(*n as nat),
            UndoableOperation::Delete(cs) => UndoModel::Delete(cs@),
        }
    }
}

/// The state of a buffer: its characters, the undo history with the most recent
/// entry last, and the number of operations that were declared for it.
pub struct TextModel {
    pub value: Seq<char>,
    pub history: Seq<UndoModel>,
    pub num_ops: nat,
}

/// The result of running operations: the state reached, the characters printed,
/// one per print, the characters deleted so far, and whether the run stopped
/// because the deletes went over `MAX_DELETE_OPS`.
pub struct RunModel {
    pub state: TextModel,
    pub printed: Seq<char>,
    pub deleted: nat,
    pub halted: bool,
}

/// `value` with the change that `u` recorded reverted. An append longer than the
/// buffer empties it, as removing characters past its start does nothing.
pub open spec fn revert(value: Seq<char>, u: UndoModel) -> Seq<char> {
    match u {
        UndoModel::Append(n) => if n <= value.len() {
            value.take(value.len() - n)
        } else {
            Seq::empty()
        },
        UndoModel::Delete(cs) => value + cs.reverse(),
    }
}

/// The number of characters that `op` deletes from `s`.
pub open spec fn deleted_by(s: TextModel, op: OpModel) -> nat {
    match op {
        OpModel::Delete(n) => if n <= s.value.len() {
            n
        } else {
            0
        },
        _ => 0,
    }
}

/// The state after applying `op` to `s`, and the character it prints, if any.
pub open spec fn step(s: TextModel, op: OpModel) -> (TextModel, Option<char>) {
    match op {
        OpModel::Append(t) => (
            TextModel {
                value: s.value + t,
                history: s.history.push(UndoModel::Append(t.len())),
                num_ops: s.num_ops,
            },
            None,
        ),
        OpModel::Delete(n) => if n <= s.value.len() {
            let k = s.value.len() - n;
            (
                TextModel {
                    value: s.value.take(k),
                    history: s.history.push(UndoModel::Delete(s.value.skip(k).reverse())),
                    num_ops: s.num_ops,
                },
                None,
            )
        } else {
            (s, None)
        },
        OpModel::Print(i) => if 1 <= i <= s.value.len() {
            (s, Some(s.value[i - 1]))
        } else {
            (s, None)
        },
        OpModel::Undo => if s.history.len() > 0 {
            (
                TextModel {
                    value: revert(s.value, s.history.last()),
                    history: s.history.drop_last(),
                    num_ops: s.num_ops,
                },
                None,
            )
        } else {
            (s, None)
        },
        OpModel::Invalid => (s, None),
    }
}

/// `c` as a sequence of at most one character.
pub open spec fn printed_by(c: Option<char>) -> Seq<char> {
    match c {
        Some(c) => seq![c],
        None => Seq::empty(),
    }
}

/// Runs `ops` in order from `s`, when `deleted` characters were deleted before.
/// The run stops before a delete that would bring the total over `MAX_DELETE_OPS`.
pub open spec fn run(s: TextModel, ops: Seq<OpModel>, deleted: nat) -> RunModel
    decreases ops.len(),
{
    if ops.len() == 0 {
        RunModel { state: s, printed: Seq::empty(), deleted, halted: false }
    } else {
        let d = deleted + deleted_by(s, ops[0]);
        if d > MAX_DELETE_OPS {
            RunModel { state: s, printed: Seq::empty(), deleted, halted: true }
        } else {
            let (s1, out) = step(s, ops[0]);
            let r = run(s1, ops.drop_first(), d);
            RunModel {
                state: r.state,
                printed: printed_by(out) + r.printed,
                deleted: r.deleted,
                halted: r.halted,
            }
        }
    }
}

/// Appending any text and then undoing gives back the state from before the append.
pub proof fn lemma_append_then_undo(s: TextModel, t: Seq<char>)
    ensures
        step(step(s, OpModel::Append(t)).0, OpModel::Undo) == (s, None::<char>),
{
    let s1 = step(s, OpModel::Append(t)).0;
    assert((s.value + t).take(s.value.len() as int) =~= s.value);
    assert(s1.history.drop_last() =~= s.history);
    assert(step(s1, OpModel::Undo).0 == s);
}

/// Deleting at most as many characters as the buffer holds and then undoing gives
/// back the state from before the delete.
pub proof fn lemma_delete_then_undo(s: TextModel, n: nat)
    requires
        n <= s.value.len(),
    ensures
        step(step(s, OpModel::Delete(n)).0, OpModel::Undo) == (s, None::<char>),
{
    let k = s.value.len() - n;
    let s1 = step(s, OpModel::Delete(n)).0;
    let tail = s.value.skip(k);
    assert(tail.reverse().reverse() =~= tail);
    assert(s.value.take(k) + tail =~= s.value);
    assert(s1.history.drop_last() =~= s.history);
    assert(step(s1, OpModel::Undo).0 == s);
}

/// The operations that do nothing: an undo with an empty history, a delete of
/// more characters than the buffer holds, a print of a position outside the
/// buffer, and an invalid line leave the state as it is and print nothing.
pub proof fn lemma_no_op_paths(s: TextModel, n: nat, i: nat)
    ensures
        s.history.len() == 0 ==> step(s, OpModel::Undo) == (s, None::<char>),
        n > s.value.len() ==> step(s, OpModel::Delete(n)) == (s, None::<char>),
        !(1 <= i <= s.value.len()) ==> step(s, OpModel::Print(i)) == (s, None::<char>),
        step(s, OpModel::Invalid) == (s, None::<char>),
{
}

/// Running `a` and then `b` is running `a + b`: what `a` prints comes before what
/// `b` prints, each in the order of its operations. A run of `a` that stops also
/// stops the run of `a + b` there.
pub proof fn lemma_run_in_order(s: TextModel, a: Seq<OpModel>, b: Seq<OpModel>, deleted: nat)
    ensures
        ({
            let ra = run(s, a, deleted);
            let rb = run(ra.state, b, ra.deleted);
            if ra.halted {
                run(s, a + b, deleted) == ra
            } else {
                run(s, a + b, deleted) == (RunModel {
                    state: rb.state,
                    printed: ra.printed + rb.printed,
                    deleted: rb.deleted,
                    halted: rb.halted,
                })
            }
        }),
    decreases a.len(),
{
    if a.len() == 0 {
        assert(a + b =~= b);
        assert(Seq::<char>::empty() + run(s, b, deleted).printed =~= run(s, b, deleted).printed);
    } else {
        assert((a + b)[0] == a[0]);
        assert((a + b).drop_first() =~= a.drop_first() + b);
        let d = deleted + deleted_by(s, a[0]);
        if d <= MAX_DELETE_OPS {
            let s1 = step(s, a[0]).0;
            lemma_run_in_order(s1, a.drop_first(), b, d);
            let ra = run(s1, a.drop_first(), d);
            let rb = run(ra.state, b, ra.deleted);
            assert(printed_by(step(s, a[0]).1) + (ra.printed + rb.printed) =~= (printed_by(
                step(s, a[0]).1,
            ) + ra.printed) + rb.printed);
        }
    }
}

/// The meaning of each entry of an undo stack, oldest first.
pub open spec fn history_view(h: Seq<UndoableOperation>) -> Seq<UndoModel> {
    h.map_values(|u: UndoableOperation| u@)
}

/// Why `apply` refused or stopped.
#[derive(Debug)]
pub enum ApplyError {
    /// More than `MAX_OPS` operations were given; none was applied.
    TooManyOperations,
    /// The number of operations given is not the declared one; none was applied.
    CountMismatch,
    /// The deletes went over `MAX_DELETE_OPS`. The operations before the one
    /// that would have done so were applied, and printed these characters.
    TooManyDeletions(Vec<char>),
}

/// A character buffer, the stack of changes that `Undo` reverts, and the number
/// of operations declared for it.
#[derive(Debug)]
pub struct Text {
    value: Vec<char>,
    num_ops: usize,
    operation_stack: Vec<UndoableOperation>,
}

impl View for Text {
    type V = TextModel;

    /// The buffer's characters, its undo stack and its declared operation count.
    closed spec fn view(&self) -> TextModel {
        TextModel {
            value: self.value@,
            history: history_view(self.operation_stack@),
            num_ops: self.num_ops as nat,
        }
    }
}

/// Adds the characters of `t` at the end of `v`.
fn push_str(v: &mut Vec<char>, t: &str)
    ensures
        final(v)@ == old(v)@ + t@,
{
    for c in it: t.chars()
        invariant
            it.seq() == t@,
            v@ == old(v)@ + it.seq().take(it.index() as int),
    {
        v.push(c);
    }
    assert(t@.take(t@.len() as int) =~= t@);
}

impl Text {
    /// A buffer holding `init`, with an empty history, for `num_ops` operations.
    pub fn new(init: &str, num_ops: usize) -> (t: Text)
        ensures
            t@ == (TextModel { value: init@, history: Seq::empty(), num_ops: num_ops as nat }),
    {
        let t = Text { value: chars_of(init), num_ops, operation_stack: Vec::new() };
        assert(history_view(t.operation_stack@) =~= Seq::empty());
        t
    }

    /// Applies `op`, adding what it prints to `printed`.
    fn apply_one(&mut self, op: &Operation, printed: &mut Vec<char>)
        ensures
            final(self)@ == step(old(self)@, op@).0,
            final(printed)@ == old(printed)@ + printed_by(step(old(self)@, op@).1),
    {
        let ghost s = self@;
        match op {
            Operation::Append(t) => {
                let before = self.value.len();
                push_str(&mut self.value, t.as_str());
                let appended = self.value.len() - before;
                let ghost h = self.operation_stack@;
                self.operation_stack.push(UndoableOperation::Append(appended));
                assert(history_view(self.operation_stack@) =~= history_view(h).push(
                    UndoModel::Append(t@.len()),
                ));
            },
            Operation::Delete(n) => {
                let n = *n;
                if n <= self.value.len() {
                    let len = self.value.len();
                    let mut deleted: Vec<char> = Vec::new();
                    let mut k: usize = 0;
                    while k < n
                        invariant
                            n <= len,
                            len == s.value.len(),
                            k <= n,
                            self.value@ == s.value.take(len - k),
                            deleted@ == s.value.skip(len - k).reverse(),
                            history_view(self.operation_stack@) == s.history,
                            self.num_ops == s.num_ops,
                        decreases n - k,
                    {
                        let c = self.value.pop().unwrap();
                        deleted.push(c);
                        k += 1;
                        assert(self.value@ =~= s.value.take(len - k));
                        assert(deleted@ =~= s.value.skip(len - k).reverse());
                    }
                    let ghost h = self.operation_stack@;
                    self.operation_stack.push(UndoableOperation::Delete(deleted));
                    assert(history_view(self.operation_stack@) =~= history_view(h).push(
                        UndoModel::Delete(s.value.skip(len - n).reverse()),
                    ));
                }
            },
            Operation::Print(i) => {
                let i = *i;
                if 1 <= i && i <= self.value.len() {
                    printed.push(self.value[i - 1]);
                } else {
                    assert(printed@ =~= old(printed)@ + Seq::<char>::empty());
                }
            },
            Operation::Undo => {
                let ghost h = self.operation_stack@;
                match self.operation_stack.pop() {
                    Some(u) => {
                        assert(history_view(self.operation_stack@) =~= history_view(h).drop_last());
                        assert(u@ == history_view(h).last());
                        match u {
                            UndoableOperation::Append(n) => {
                                let len = self.value.len();
                                let keep = if n <= len {
                                    len - n
                                } else {
                                    0
                                };
                                self.value.truncate(keep);
                                assert(self.value@ =~= revert(s.value, u@));
                            },
                            UndoableOperation::Delete(cs) => {
                                let mut j: usize = cs.len();
                                while j > 0
                                    invariant
                                        j <= cs.len(),
                                        self.value@ == s.value + cs@.skip(j as int).reverse(),
                                        history_view(self.operation_stack@) == s.history.drop_last(),
                                        self.num_ops == s.num_ops,
                                    decreases j,
                                {
                                    j -= 1;
                                    self.value.push(cs[j]);
                                    assert(self.value@ =~= s.value + cs@.skip(j as int).reverse());
                                }
                                assert(cs@.skip(0) =~= cs@);
                            },
                        }
                    },
                    None => {},
                }
                assert(printed@ =~= old(printed)@ + Seq::<char>::empty());
            },
            Operation::Invalid => {
                assert(printed@ =~= old(printed)@ + Seq::<char>::empty());
            },
        }
        proof {
            if !(op@ is Print) {
                assert(printed@ =~= old(printed)@ + Seq::<char>::empty());
            }
        }
    }

    /// Applies `ops` one after another, and returns the characters that the
    /// prints among them printed, in order. Refused, with nothing applied, when
    /// there are more than `MAX_OPS` operations or not as many as declared.
    /// Stopped before a delete that would bring the characters deleted by this
    /// call over `MAX_DELETE_OPS`.
    pub fn apply(&mut self, ops: Vec<Operation>) -> (r: Result<Vec<char>, ApplyError>)
        ensures
            ops.len() > MAX_OPS ==> (r matches Err(ApplyError::TooManyOperations)) && final(self)@
                == old(self)@,
            ops.len() <= MAX_OPS && ops.len() != old(self)@.num_ops ==> (r matches Err(
                ApplyError::CountMismatch,
            )) && final(self)@ == old(self)@,
            ops.len() <= MAX_OPS && ops.len() == old(self)@.num_ops ==> {
                let out = run(old(self)@, ops_view(ops@), 0);
                &&& final(self)@ == out.state
                &&& match r {
                    Ok(printed) => !out.halted && printed@ == out.printed,
                    Err(ApplyError::TooManyDeletions(printed)) => out.halted && printed@
                        == out.printed,
                    Err(_) => false,
                }
            },
    {
        if ops.len() > MAX_OPS {
            return Err(ApplyError::TooManyOperations);
        }
        if ops.len() != self.num_ops {
            return Err(ApplyError::CountMismatch);
        }
        let ghost all = ops_view(ops@);
        let ghost whole = run(self@, all, 0);
        let mut printed: Vec<char> = Vec::new();
        let mut deleted: usize = 0;
        let mut i: usize = 0;
        assert(all.skip(0) =~= all);
        while i < ops.len()
            invariant
                i <= ops.len(),
                ops.len() <= MAX_OPS,
                self@.num_ops == ops.len(),
                old(self)@.num_ops == ops.len(),
                all == ops_view(ops@),
                whole == run(old(self)@, all, 0),
                deleted <= MAX_DELETE_OPS,
                printed@ + run(self@, all.skip(i as int), deleted as nat).printed == whole.printed,
                run(self@, all.skip(i as int), deleted as nat).state == whole.state,
                run(self@, all.skip(i as int), deleted as nat).halted == whole.halted,
            decreases ops.len() - i,
        {
            let op = &ops[i];
            let ghost s = self@;
            let ghost rest = all.skip(i as int);
            assert(rest[0] == op@);
            assert(rest.drop_first() =~= all.skip(i + 1));
            let n: usize = match op {
                Operation::Delete(n) => if *n <= self.value.len() {
                    *n
                } else {
                    0
                },
                _ => 0,
            };
            if n > MAX_DELETE_OPS - deleted {
                assert(printed@ + Seq::<char>::empty() =~= printed@);
                return Err(ApplyError::TooManyDeletions(printed));
            }
            let ghost p = printed@;
            self.apply_one(op, &mut printed);
            deleted = deleted + n;
            i += 1;
            assert(printed@ + run(self@, all.skip(i as int), deleted as nat).printed =~= p + (
            printed_by(step(s, op@).1) + run(self@, all.skip(i as int), deleted as nat).printed));
        }
        assert(all.skip(i as int) =~= Seq::<OpModel>::empty());
        assert(printed@ + Seq::<char>::empty() =~= printed@);
        Ok(printed)
    }

    /// The buffer's characters, as a string.
    pub fn output(self) -> (s: String)
        ensures
            s@ == self@.value,
    {
        let s = string_of(&self.value, 0, self.value.len());
        assert(self.value@.subrange(0, self.value@.len() as int) =~= self.value@);
        s
    }
}

} // verus!
