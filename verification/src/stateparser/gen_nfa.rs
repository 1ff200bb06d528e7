//! Builds an automaton state by state, and runs it.

use vstd::prelude::*;
use crate::stateparser::{
    captures, class_matches, class_same, first_match, run, table_wf, transition, ByteClass,
    CaptureAction, ParseError, ParseStatus, StateResult, StateView,
};

verus! {

/// A state of an automaton under construction.
#[derive(Debug)]
pub struct State {
    pub index: usize,
    pub bytes: ByteClass,
    pub next_states: Vec<usize>,
    pub start_capture: CaptureAction,
    pub end_capture: CaptureAction,
    pub result: StateResult,
}

impl View for State {
    type V = StateView;

    open spec fn view(&self) -> StateView {
        StateView {
            bytes: self.bytes,
            next_states: self.next_states@,
            start_capture: self.start_capture,
            end_capture: self.end_capture,
            result: self.result,
        }
    }
}

/// A state of the class `bytes` that leads nowhere and reports nothing.
pub open spec fn fresh_state(bytes: ByteClass) -> StateView {
    StateView {
        bytes,
        next_states: Seq::empty(),
        start_capture: CaptureAction::Nothing,
        end_capture: CaptureAction::Nothing,
        result: StateResult::Go,
    }
}

/// The states as the automaton's rules see them.
pub open spec fn states_view(ss: Seq<State>) -> Seq<StateView> {
    Seq::new(ss.len(), |i: int| ss[i]@)
}

/// The first of `nexts`, from position `j` on, whose state has a class
/// written like `bytes`.
pub open spec fn first_same(t: Seq<StateView>, nexts: Seq<usize>, bytes: ByteClass, j: int) -> Option<
    usize,
>
    decreases nexts.len() - j,
{
    if j < 0 || j >= nexts.len() {
        None
    } else if class_same(t[nexts[j] as int].bytes, bytes) {
        Some(nexts[j])
    } else {
        first_same(t, nexts, bytes, j + 1)
    }
}

/// The state with one more successor.
pub open spec fn with_next(s: StateView, child: usize) -> StateView {
    StateView { next_states: s.next_states.push(child), ..s }
}

impl State {
    pub fn new(index: usize, bytes: ByteClass) -> (s: State)
        ensures
            s.index == index,
            s@ == fresh_state(bytes),
    {
        State {
            index,
            bytes,
            next_states: Vec::new(),
            start_capture: CaptureAction::Nothing,
            end_capture: CaptureAction::Nothing,
            result: StateResult::Go,
        }
    }

    /// Whether this state takes the byte `b`.
    pub fn matches(&self, b: &u8) -> (r: bool)
        ensures
            r == class_matches(self.bytes, *b),
    {
        self.bytes.takes(*b)
    }
}

/// An automaton under construction, and the state that a run stands in.
#[derive(Debug)]
pub struct NFA {
    pub states: Vec<State>,
    pub current_state: usize,
}

impl NFA {
    /// The table as the automaton's rules see it.
    pub open spec fn table(&self) -> Seq<StateView> {
        states_view(self.states@)
    }

    /// The transitions stay inside the table, and so does the current state.
    pub open spec fn wf(&self) -> bool {
        table_wf(self.table()) && self.current_state < self.states@.len()
    }

    /// An automaton of one state, which takes any byte and leads nowhere.
    pub fn new() -> (nfa: NFA)
        ensures
            nfa.table() == seq![fresh_state(ByteClass::Any)],
            nfa.states@[0].index == 0,
            nfa.current_state == 0,
            nfa.wf(),
    {
        let root = State::new(0, ByteClass::Any);
        let mut states: Vec<State> = Vec::new();
        states.push(root);
        let nfa = NFA { states, current_state: 0 };
        nfa
    }

    pub fn get(&self, index: usize) -> (s: &State)
        requires
            index < self.states@.len(),
        ensures
            *s == self.states@[index as int],
    {
        &self.states[index]
    }

    pub fn get_mut(&mut self, index: usize) -> (s: &mut State)
        requires
            index < old(self).states@.len(),
        ensures
            *s == old(self).states@[index as int],
            final(self).states@ == old(self).states@.update(index as int, *final(s)),
            final(self).current_state == old(self).current_state,
    {
        &mut self.states[index]
    }

    /// The successor of state `index` whose class is written like `bytes`;
    /// a new state of that class is made its last successor when it has
    /// none.
    pub fn put(&mut self, index: usize, bytes: ByteClass) -> (r: usize)
        requires
            old(self).wf(),
            index < old(self).states@.len(),
        ensures
            final(self).wf(),
            final(self).current_state == old(self).current_state,
            match first_same(
                old(self).table(),
                old(self).table()[index as int].next_states,
                bytes,
                0,
            ) {
                Some(s) => r == s && final(self).table() == old(self).table(),
                None => r == old(self).states@.len() && final(self).table() == old(
                    self,
                ).table().update(index as int, with_next(old(self).table()[index as int], r)).push(
                    fresh_state(bytes),
                ),
            },
    {
        let n = self.states[index].next_states.len();
        let ghost t = self.table();
        let mut j: usize = 0;
        while j < n
            invariant
                j <= n,
                *self == *old(self),
                self.wf(),
                t == self.table(),
                table_wf(t),
                index < self.states@.len(),
                n == t[index as int].next_states.len(),
                first_same(t, t[index as int].next_states, bytes, 0) == first_same(
                    t,
                    t[index as int].next_states,
                    bytes,
                    j as int,
                ),
            decreases n - j,
        {
            let s = self.states[index].next_states[j];
            if self.get(s).bytes.same(&bytes) {
                return s;
            }
            j += 1;
        }
        let state = self.new_state(bytes);
        let ghost grown = self.states@;
        self.states[index].next_states.push(state);
        proof {
            let want = t.update(index as int, with_next(t[index as int], state)).push(
                fresh_state(bytes),
            );
            assert forall|i: int| 0 <= i < want.len() implies self.table()[i] == want[i] by {
                assert(states_view(grown)[i] == grown[i]@);
            }
            assert(self.table() =~= want);
        }
        state
    }

    /// Adds a state of the class `bytes` and gives its index.
    pub fn new_state(&mut self, bytes: ByteClass) -> (index: usize)
        ensures
            index == old(self).states@.len(),
            final(self).states@.len() == index + 1,
            final(self).states@[index as int].index == index,
            final(self).table() == old(self).table().push(fresh_state(bytes)),
            final(self).current_state == old(self).current_state,
            old(self).wf() ==> final(self).wf(),
    {
        let index = self.states.len();
        let state = State::new(index, bytes);
        self.states.push(state);
        let ghost t = old(self).table();
        proof {
            if old(self).wf() {
                let want = self.table();
                assert forall|i: int, k: int|
                    0 <= i < want.len() && 0 <= k < want[i].next_states.len() implies (
                #[trigger] want[i].next_states[k]) < want.len() by {
                    if i < t.len() {
                        assert(t[i].next_states[k] < t.len());
                    }
                }
            }
        }
        index
    }

    /// Makes `child` a successor of state `index`, unless it is one.
    pub fn put_state(&mut self, index: usize, child: usize)
        requires
            index < old(self).states@.len(),
        ensures
            final(self).current_state == old(self).current_state,
            final(self).table() == if old(self).table()[index as int].next_states.contains(child) {
                old(self).table()
            } else {
                old(self).table().update(index as int, with_next(old(self).table()[index as int], child))
            },
            old(self).wf() && child < old(self).states@.len() ==> final(self).wf(),
    {
        let ghost t = self.table();
        let n = self.states[index].next_states.len();
        let mut j: usize = 0;
        while j < n
            invariant
                j <= n,
                *self == *old(self),
                t == self.table(),
                index < self.states@.len(),
                n == t[index as int].next_states.len(),
                forall|k: int| 0 <= k < j ==> t[index as int].next_states[k] != child,
            decreases n - j,
        {
            if self.states[index].next_states[j] == child {
                return ;
            }
            j += 1;
        }
        self.states[index].next_states.push(child);
        assert(self.table() =~= t.update(index as int, with_next(t[index as int], child)));
    }

    /// Sets what entering state `index` reports.
    pub fn start_capture(&mut self, index: usize, capture: CaptureAction)
        requires
            index < old(self).states@.len(),
        ensures
            final(self).current_state == old(self).current_state,
            final(self).table() == old(self).table().update(
                index as int,
                StateView { start_capture: capture, ..old(self).table()[index as int] },
            ),
            old(self).wf() ==> final(self).wf(),
    {
        let ghost t = self.table();
        self.get_mut(index).start_capture = capture;
        proof {
            let want = t.update(index as int, StateView { start_capture: capture, ..t[index as int] });
            if old(self).wf() {
                assert forall|i: int, k: int|
                    0 <= i < want.len() && 0 <= k < want[i].next_states.len() implies (
                #[trigger] want[i].next_states[k]) < want.len() by {}
            }
        }
    }

    /// Sets what leaving state `index` reports.
    pub fn end_capture(&mut self, index: usize, capture: CaptureAction)
        requires
            index < old(self).states@.len(),
        ensures
            final(self).current_state == old(self).current_state,
            final(self).table() == old(self).table().update(
                index as int,
                StateView { end_capture: capture, ..old(self).table()[index as int] },
            ),
            old(self).wf() ==> final(self).wf(),
    {
        let ghost t = self.table();
        self.get_mut(index).end_capture = capture;
        proof {
            let want = t.update(index as int, StateView { end_capture: capture, ..t[index as int] });
            if old(self).wf() {
                assert forall|i: int, k: int|
                    0 <= i < want.len() && 0 <= k < want[i].next_states.len() implies (
                #[trigger] want[i].next_states[k]) < want.len() by {}
            }
        }
    }

    /// Sets what reaching state `index` means for a run.
    pub fn state_result(&mut self, index: usize, result: StateResult)
        requires
            index < old(self).states@.len(),
        ensures
            final(self).current_state == old(self).current_state,
            final(self).table() == old(self).table().update(
                index as int,
                StateView { result, ..old(self).table()[index as int] },
            ),
            old(self).wf() ==> final(self).wf(),
    {
        let ghost t = self.table();
        self.get_mut(index).result = result;
        proof {
            let want = t.update(index as int, StateView { result, ..t[index as int] });
            if old(self).wf() {
                assert forall|i: int, k: int|
                    0 <= i < want.len() && 0 <= k < want[i].next_states.len() implies (
                #[trigger] want[i].next_states[k]) < want.len() by {}
            }
        }
    }

    /// Runs the automaton from its current state over `buf` from `pos` on,
    /// and adds to `events` what the transitions report.
    pub fn process(
        &mut self,
        buf: &[u8],
        pos: usize,
        events: &mut Vec<(CaptureAction, usize)>,
    ) -> (r: Result<ParseStatus, ParseError>)
        requires
            old(self).wf(),
            pos <= buf@.len(),
        ensures
            final(self).states == old(self).states,
            final(self).wf(),
            r == run(old(self).table(), old(self).current_state, buf@, pos as int, old(events)@).outcome,
            final(self).current_state == run(
                old(self).table(),
                old(self).current_state,
                buf@,
                pos as int,
                old(events)@,
            ).state,
            final(events)@ == run(
                old(self).table(),
                old(self).current_state,
                buf@,
                pos as int,
                old(events)@,
            ).events,
    {
        let ghost t = self.table();
        let ghost goal = run(t, self.current_state, buf@, pos as int, events@);
        let mut i = pos;
        while i < buf.len()
            invariant
                pos <= i <= buf@.len(),
                self.states == old(self).states,
                t == self.table(),
                self.wf(),
                goal == run(
                    old(self).table(),
                    old(self).current_state,
                    buf@,
                    pos as int,
                    old(events)@,
                ),
                goal == run(t, self.current_state, buf@, i as int, events@),
            decreases buf@.len() - i,
        {
            let cur = self.current_state;
            match self.process_byte(cur, &buf[i]) {
                Some(next) => {
                    match self.get(next).result {
                        StateResult::Go => {},
                        StateResult::Done => {
                            return Ok(ParseStatus::Completed(i + 1));
                        },
                        StateResult::Fail(e) => {
                            return Err(e);
                        },
                    }
                    let ghost before = events@;
                    if cur != next {
                        let end = self.get(cur).end_capture;
                        if end != CaptureAction::Nothing {
                            events.push((end, i));
                        }
                        let start = self.get(next).start_capture;
                        if start != CaptureAction::Nothing {
                            events.push((start, i));
                        }
                    }
                    assert(events@ =~= before + captures(t, cur, next, i));
                    self.current_state = next;
                },
                None => {
                    return Err(ParseError::BadRequest);
                },
            }
            i += 1;
        }
        Ok(ParseStatus::Incompleted)
    }

    /// The state that follows `state` on the byte `b`, if a transition
    /// takes it.
    pub fn process_byte(&self, state: usize, b: &u8) -> (r: Option<usize>)
        requires
            table_wf(self.table()),
            state < self.states@.len(),
        ensures
            r == transition(self.table(), state, *b),
            r matches Some(n) ==> n < self.states@.len(),
    {
        let ghost t = self.table();
        let n = self.states[state].next_states.len();
        let mut j: usize = 0;
        while j < n
            invariant
                j <= n,
                t == self.table(),
                table_wf(t),
                state < self.states@.len(),
                n == t[state as int].next_states.len(),
                transition(t, state, *b) == first_match(
                    t,
                    t[state as int].next_states,
                    *b,
                    j as int,
                ),
            decreases n - j,
        {
            let s = self.states[state].next_states[j];
            if self.states[s].matches(b) {
                return Some(s);
            }
            j += 1;
        }
        None
    }
}

} // verus!
