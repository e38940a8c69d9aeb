use std::collections::VecDeque;

use vstd::prelude::*;

use crate::text::{is_blank, is_blank_text, str_trim, trimmed};

verus! {

/// The script console: the line being typed, the printed output, the submitted lines
/// waiting to run, and the history that the arrow keys walk through.
pub struct Console {
    pub open: bool,
    pub input: String,
    pub output: String,
    pending: VecDeque<String>,
    history: Vec<String>,
    history_index: Option<usize>,
    history_draft: String,
}

/// What a console shows and holds, as plain values.
pub struct ConsoleModel {
    pub open: bool,
    pub input: Seq<char>,
    pub output: Seq<char>,
    /// Submitted lines waiting to run, oldest first.
    pub pending: Seq<Seq<char>>,
    /// Submitted lines, oldest first.
    pub history: Seq<Seq<char>>,
    /// The history entry shown while the arrow keys browse.
    pub browsing: Option<nat>,
    /// The line that was being typed when browsing began.
    pub draft: Seq<char>,
}

impl ConsoleModel {
    /// A browsing position always names an entry of the history.
    pub open spec fn wf(self) -> bool {
        self.browsing matches Some(i) ==> i < self.history.len()
    }

    /// Submitting: the typed line is taken; unless it is blank, it is appended to the
    /// history and to the lines waiting to run, and browsing ends.
    pub open spec fn submitted(self) -> ConsoleModel {
        if is_blank(self.input) {
            ConsoleModel { input: Seq::empty(), ..self }
        } else {
            ConsoleModel {
                input: Seq::empty(),
                history: self.history.push(self.input),
                pending: self.pending.push(self.input),
                browsing: None,
                draft: Seq::empty(),
                ..self
            }
        }
    }

    /// Where the up arrow moves: one entry older, stopping at the oldest; from outside
    /// the history to the newest entry; nowhere in an empty history.
    pub open spec fn up_target(self) -> Option<nat> {
        match self.browsing {
            Some(i) => Some(if i == 0 { 0nat } else { (i - 1) as nat }),
            None => if self.history.len() > 0 { Some((self.history.len() - 1) as nat) } else { None },
        }
    }

    /// The up arrow: shows the `up_target` entry, keeping the typed line as the draft
    /// when browsing begins; the flag tells whether anything was shown.
    pub open spec fn up(self) -> (ConsoleModel, bool) {
        match self.up_target() {
            None => (self, false),
            Some(k) => (
                ConsoleModel {
                    browsing: Some(k),
                    input: self.history[k as int],
                    draft: if self.browsing is None { self.input } else { self.draft },
                    ..self
                },
                true,
            ),
        }
    }

    /// The down arrow: shows the next newer entry; past the newest, ends browsing and
    /// restores the draft; the flag tells whether the console was browsing.
    pub open spec fn down(self) -> (ConsoleModel, bool) {
        match self.browsing {
            None => (self, false),
            Some(i) => if i + 1 < self.history.len() {
                (
                    ConsoleModel {
                        browsing: Some(i + 1),
                        input: self.history[(i + 1) as int],
                        ..self
                    },
                    true,
                )
            } else {
                (ConsoleModel { browsing: None, input: self.draft, ..self }, true)
            },
        }
    }

    /// Printing `line` below the output, on a line of its own.
    pub open spec fn printed(self, line: Seq<char>) -> ConsoleModel {
        ConsoleModel {
            output: if self.output.len() == 0 {
                line
            } else {
                self.output + seq!['\n'] + line
            },
            ..self
        }
    }

    /// The state after pressing the up arrow `n` times.
    pub open spec fn ups(self, n: nat) -> ConsoleModel
        decreases n,
    {
        if n == 0 {
            self
        } else {
            self.ups((n - 1) as nat).up().0
        }
    }

    /// The state after pressing the down arrow `n` times.
    pub open spec fn downs(self, n: nat) -> ConsoleModel
        decreases n,
    {
        if n == 0 {
            self
        } else {
            self.downs((n - 1) as nat).down().0
        }
    }
}

impl View for Console {
    type V = ConsoleModel;

    closed spec fn view(&self) -> ConsoleModel {
        ConsoleModel {
            open: self.open,
            input: self.input@,
            output: self.output@,
            pending: self.pending@.map_values(|s: String| s@),
            history: self.history@.map_values(|s: String| s@),
            browsing: match self.history_index {
                Some(i) => Some(i as nat),
                None => None,
            },
            draft: self.history_draft@,
        }
    }
}

impl Console {
    /// An empty, closed console.
    pub fn new() -> (c: Self)
        ensures
            c@.wf(),
            !c@.open,
            c@.input == Seq::<char>::empty(),
            c@.output == Seq::<char>::empty(),
            c@.pending == Seq::<Seq<char>>::empty(),
            c@.history == Seq::<Seq<char>>::empty(),
            c@.browsing is None,
            c@.draft == Seq::<char>::empty(),
    {
        let c = Console {
            open: false,
            input: String::new(),
            output: String::new(),
            pending: VecDeque::new(),
            history: Vec::new(),
            history_index: None,
            history_draft: String::new(),
        };
        proof {
            assert(c@.history =~= Seq::<Seq<char>>::empty());
            assert(c@.pending =~= Seq::<Seq<char>>::empty());
        }
        c
    }

    /// Replaces the line being typed with `text`.
    pub fn set_input(&mut self, text: &str)
        ensures
            final(self)@ == (ConsoleModel { input: text@, ..old(self)@ }),
    {
        self.input = text.to_owned();
        proof {
            assert(self@ =~= (ConsoleModel { input: text@, ..old(self)@ }));
        }
    }

    /// Shows or hides the console.
    pub fn set_open(&mut self, open: bool)
        ensures
            final(self)@ == (ConsoleModel { open, ..old(self)@ }),
    {
        self.open = open;
        proof {
            assert(self@ =~= (ConsoleModel { open, ..old(self)@ }));
        }
    }

    /// The line being typed.
    pub fn input_text(&self) -> (r: &str)
        ensures
            r@ == self@.input,
    {
        self.input.as_str()
    }

    /// The printed output.
    pub fn output_text(&self) -> (r: &str)
        ensures
            r@ == self@.output,
    {
        self.output.as_str()
    }

    /// Takes the typed line; one that is not blank joins the history and the lines waiting
    /// to run (see `ConsoleModel::submitted`).
    pub fn submit(&mut self)
        requires
            old(self)@.wf(),
        ensures
            final(self)@ == old(self)@.submitted(),
            final(self)@.wf(),
    {
        let mut source = String::new();
        std::mem::swap(&mut source, &mut self.input);
        if !is_blank_text(source.as_str()) {
            let ghost old_history = self.history@;
            let ghost old_pending = self.pending@;
            self.history.push(source.clone());
            self.history_index = None;
            self.history_draft = String::new();
            self.pending.push_back(source);
            proof {
                assert(self@.history =~= old_history.map_values(|s: String| s@).push(
                    old(self).input@,
                ));
                assert(self@.pending =~= old_pending.map_values(|s: String| s@).push(
                    old(self).input@,
                ));
            }
        }
        proof {
            assert(self@ =~= old(self)@.submitted());
        }
    }

    /// The up arrow (see `ConsoleModel::up`).
    pub fn history_up(&mut self) -> (moved: bool)
        requires
            old(self)@.wf(),
        ensures
            (final(self)@, moved) == old(self)@.up(),
            final(self)@.wf(),
    {
        let index: usize = match self.history_index {
            Some(i) => i.saturating_sub(1),
            None => match self.history.len().checked_sub(1) {
                Some(last) => last,
                None => {
                    return false;
                },
            },
        };
        if self.history_index.is_none() {
            self.history_draft = self.input.clone();
        }
        self.history_index = Some(index);
        self.input = self.history[index].clone();
        proof {
            assert(self@ =~= old(self)@.up().0);
        }
        true
    }

    /// The down arrow (see `ConsoleModel::down`).
    pub fn history_down(&mut self) -> (moved: bool)
        requires
            old(self)@.wf(),
        ensures
            (final(self)@, moved) == old(self)@.down(),
            final(self)@.wf(),
    {
        let index: usize = match self.history_index {
            Some(i) => i,
            None => {
                return false;
            },
        };
        assert(index < self.history@.len());
        if index < self.history.len() - 1 {
            self.history_index = Some(index + 1);
            self.input = self.history[index + 1].clone();
        } else {
            self.history_index = None;
            self.input = self.history_draft.clone();
        }
        proof {
            assert(self@ =~= old(self)@.down().0);
        }
        true
    }

    /// Prints `line` below the output, on a line of its own.
    pub fn push_line(&mut self, line: &str)
        requires
            old(self)@.wf(),
        ensures
            final(self)@ == old(self)@.printed(line@),
            final(self)@.wf(),
    {
        proof {
            reveal_strlit("\n");
        }
        if !self.output.as_str().is_empty() {
            self.output.append("\n");
        }
        self.output.append(line);
        proof {
            assert(self@.output =~= old(self)@.printed(line@).output);
            assert(self@ =~= old(self)@.printed(line@));
        }
    }

    /// The oldest submitted line that has not run yet, taken from the queue.
    pub fn take_pending(&mut self) -> (line: Option<String>)
        requires
            old(self)@.wf(),
        ensures
            final(self)@.wf(),
            old(self)@.pending.len() == 0 ==> line is None && final(self)@ == old(self)@,
            old(self)@.pending.len() > 0 ==> line is Some && line->0@ == old(self)@.pending[0]
                && final(self)@ == (ConsoleModel {
                pending: old(self)@.pending.drop_first(),
                ..old(self)@
            }),
    {
        let ghost before = self.pending@;
        let line = self.pending.pop_front();
        proof {
            if before.len() > 0 {
                assert(self@.pending =~= before.map_values(|s: String| s@).drop_first());
                assert(self@ =~= (ConsoleModel { pending: old(self)@.pending.drop_first(), ..old(self)@ }));
            } else {
                assert(self@ =~= old(self)@);
            }
        }
        line
    }

    /// The next submitted line to run: taken from the queue, stripped of surrounding white
    /// space, and echoed to the output after a `> ` prompt.
    pub fn next_command(&mut self) -> (source: Option<String>)
        requires
            old(self)@.wf(),
        ensures
            final(self)@.wf(),
            old(self)@.pending.len() == 0 ==> source is None && final(self)@ == old(self)@,
            old(self)@.pending.len() > 0 ==> source is Some && source->0@ == trimmed(
                old(self)@.pending[0],
            ) && final(self)@ == (ConsoleModel {
                pending: old(self)@.pending.drop_first(),
                ..old(self)@
            }).printed("> "@ + trimmed(old(self)@.pending[0])),
    {
        match self.take_pending() {
            None => None,
            Some(line) => {
                let source = str_trim(line.as_str()).to_owned();
                let mut echo = String::from_str("> ");
                echo.append(source.as_str());
                self.push_line(echo.as_str());
                Some(source)
            },
        }
    }

    /// Prints `message` as an error: `ERROR: ` and the message.
    pub fn report_error(&mut self, message: &str)
        requires
            old(self)@.wf(),
        ensures
            final(self)@.wf(),
            final(self)@ == old(self)@.printed("ERROR: "@ + message@),
    {
        let mut line = String::from_str("ERROR: ");
        line.append(message);
        self.push_line(line.as_str());
    }

    /// Prints an error met while loading the scene file `name`:
    /// `ERROR loading <name>: <message>`.
    pub fn report_load_error(&mut self, name: &str, message: &str)
        requires
            old(self)@.wf(),
        ensures
            final(self)@.wf(),
            final(self)@ == old(self)@.printed("ERROR loading "@ + name@ + ": "@ + message@),
    {
        let mut line = String::from_str("ERROR loading ");
        line.append(name);
        line.append(": ");
        line.append(message);
        self.push_line(line.as_str());
    }
}

impl Default for Console {
    fn default() -> (c: Self)
        ensures
            c@.wf(),
            !c@.open,
            c@.input == Seq::<char>::empty(),
            c@.output == Seq::<char>::empty(),
            c@.pending == Seq::<Seq<char>>::empty(),
            c@.history == Seq::<Seq<char>>::empty(),
            c@.browsing is None,
            c@.draft == Seq::<char>::empty(),
    {
        Console::new()
    }
}

proof fn lemma_ups_from_outside(s: ConsoleModel, n: nat)
    requires
        s.wf(),
        s.browsing is None,
        1 <= n <= s.history.len(),
    ensures
        s.ups(n).wf(),
        s.ups(n).browsing == Some((s.history.len() - n) as nat),
        s.ups(n).draft == s.input,
        s.ups(n).history == s.history,
        s.ups(n).pending == s.pending,
        s.ups(n).output == s.output,
        s.ups(n).open == s.open,
    decreases n,
{
    assert(s.ups(0) == s);
    if n > 1 {
        lemma_ups_from_outside(s, (n - 1) as nat);
    }
    assert(s.ups(n) == s.ups((n - 1) as nat).up().0);
}

proof fn lemma_downs_while_browsing(t: ConsoleModel, m: nat)
    requires
        t.wf(),
        t.browsing is Some,
        t.browsing->0 + m < t.history.len(),
    ensures
        t.downs(m).browsing == Some(t.browsing->0 + m),
        t.downs(m).draft == t.draft,
        t.downs(m).history == t.history,
        t.downs(m).pending == t.pending,
        t.downs(m).output == t.output,
        t.downs(m).open == t.open,
    decreases m,
{
    if m > 0 {
        lemma_downs_while_browsing(t, (m - 1) as nat);
    }
}

/// Law: browsing the history never loses the line being typed. From a console that is
/// not browsing, pressing the up arrow `n` times (at most once per history entry) and then
/// the down arrow `n` times brings back the typed line, ends browsing, and leaves the
/// history, the queue and the output as they were.
pub proof fn lemma_history_round_trip_restores_the_draft(s: ConsoleModel, n: nat)
    requires
        s.wf(),
        s.browsing is None,
        n <= s.history.len(),
    ensures
        s.ups(n).downs(n).input == s.input,
        s.ups(n).downs(n).browsing is None,
        s.ups(n).downs(n).history == s.history,
        s.ups(n).downs(n).pending == s.pending,
        s.ups(n).downs(n).output == s.output,
{
    if n > 0 {
        lemma_ups_from_outside(s, n);
        let t = s.ups(n);
        lemma_downs_while_browsing(t, (n - 1) as nat);
        assert(t.downs(n) == t.downs((n - 1) as nat).down().0);
    }
}

/// Law: while browsing, the up arrow followed by the down arrow shows the same entry
/// again, unless the oldest entry was shown (where the up arrow stays put).
pub proof fn lemma_up_then_down_returns_to_the_entry(s: ConsoleModel)
    requires
        s.wf(),
        s.browsing matches Some(i) && i > 0,
    ensures
        s.up().0.down().0.browsing == s.browsing,
        s.up().0.down().0.input == s.history[s.browsing->0 as int],
        s.up().0.down().0.draft == s.draft,
{
}

} // verus!
