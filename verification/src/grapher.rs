//! The state of the calculator and the decisions taken on each user action.

use vstd::prelude::*;
use crate::entry::{FunctionEntry, EntryView, entry_views};
use crate::euler::{parse_request, parse_source};
use crate::url::{
    get_data_from_url, texts_of, unparsed_entries, url_string, url_string_from_texts, url_texts,
};

verus! {

/// The most rows the sidebar offers to add.
pub const MAX_ENTRIES: usize = 18;

/// The fewest points a line is sampled at.
pub const MIN_POINTS: usize = 10;

/// The most points a line is sampled at.
pub const MAX_POINTS: usize = 1000;

/// The number of points a line is sampled at until the user chooses another.
pub const DEFAULT_POINTS: usize = 500;

/// The calculator as the contracts see it. Row `i` has the entry `entries[i]`, and
/// `failures[i]` holds the parser's message where the last parse of its text failed.
pub struct GrapherView<F> {
    pub entries: Seq<EntryView<F>>,
    pub failures: Seq<Option<Seq<char>>>,
    pub points: nat,
}

/// The first message in the list, if it holds one.
pub open spec fn first_failure(failures: Seq<Option<Seq<char>>>) -> Option<Seq<char>>
    decreases failures.len(),
{
    if failures.len() == 0 {
        None
    } else {
        match first_failure(failures.drop_last()) {
            Some(message) => Some(message),
            None => failures.last(),
        }
    }
}

impl<F> GrapherView<F> {
    /// There is always a row, no empty text has a function, a row whose parse failed has a
    /// text and no function, and the resolution is in range.
    pub open spec fn wf(self) -> bool {
        &&& self.entries.len() >= 1
        &&& self.failures.len() == self.entries.len()
        &&& MIN_POINTS <= self.points <= MAX_POINTS
        &&& forall|i: int| 0 <= i < self.entries.len() ==> (#[trigger] self.entries[i]).wf()
        &&& forall|i: int|
            0 <= i < self.entries.len() && (#[trigger] self.failures[i]) is Some
                ==> self.entries[i].func is None && self.entries[i].text.len() > 0
    }

    /// The calculator as it starts: one empty row, no error, the default resolution.
    pub open spec fn initial() -> Self {
        GrapherView {
            entries: seq![EntryView::empty()],
            failures: seq![None],
            points: DEFAULT_POINTS as nat,
        }
    }

    /// The calculator as it starts with the given texts: a row for each, none parsed yet,
    /// or one empty row where there is no text.
    pub open spec fn from_texts(texts: Seq<Seq<char>>) -> Self {
        if texts.len() == 0 {
            Self::initial()
        } else {
            GrapherView {
                entries: unparsed_entries(texts),
                failures: Seq::new(texts.len(), |i: int| None),
                points: DEFAULT_POINTS as nat,
            }
        }
    }

    /// The error that is shown: the message of the first row, from the top, whose last
    /// parse failed. There is none where no row failed.
    pub open spec fn error(self) -> Option<Seq<char>> {
        first_failure(self.failures)
    }

    /// The texts of the rows, in order.
    pub open spec fn texts(self) -> Seq<Seq<char>> {
        texts_of(self.entries)
    }

    /// The state after the text of row `index` was changed to `text`. An empty text leaves
    /// the row empty at once, without a function and without a failure. Any other text
    /// waits for the parser's answer: until it comes the row keeps the function and the
    /// failure it had. Every other row stays as it was.
    pub open spec fn with_text(self, index: int, text: Seq<char>) -> Self {
        if 0 <= index < self.entries.len() {
            if text.len() == 0 {
                GrapherView {
                    entries: self.entries.update(index, EntryView::empty()),
                    failures: self.failures.update(index, None),
                    points: self.points,
                }
            } else {
                GrapherView {
                    entries: self.entries.update(
                        index,
                        EntryView { text, func: self.entries[index].func },
                    ),
                    failures: self.failures,
                    points: self.points,
                }
            }
        } else {
            self
        }
    }

    /// The state after the parser answered for row `index`. A compiled function is kept in
    /// the row; a failure leaves the row without a function and its message is kept as the
    /// row's failure. A row with an empty text takes no answer.
    pub open spec fn with_outcome(self, index: int, outcome: Result<F, Seq<char>>) -> Self {
        if 0 <= index < self.entries.len() && self.entries[index].text.len() > 0 {
            match outcome {
                Ok(f) => GrapherView {
                    entries: self.entries.update(
                        index,
                        EntryView { text: self.entries[index].text, func: Some(f) },
                    ),
                    failures: self.failures.update(index, None),
                    points: self.points,
                },
                Err(message) => GrapherView {
                    entries: self.entries.update(
                        index,
                        EntryView::unparsed(self.entries[index].text),
                    ),
                    failures: self.failures.update(index, Some(message)),
                    points: self.points,
                },
            }
        } else {
            self
        }
    }

    /// Whether the pass over the edited rows goes on behind the parser's answer for row
    /// `index`: it stops where a text that was parsed failed.
    pub open spec fn proceeds(self, index: int, outcome: Result<F, Seq<char>>) -> bool {
        !(0 <= index < self.entries.len() && self.entries[index].text.len() > 0 && outcome is Err)
    }

    /// The state after a pass over the rows that the user edited, and whether the pass
    /// came to its end. Each edit names its row and brings the new text and, where the
    /// text was parsed, the parser's answer. The edits are taken in order. Every text is
    /// taken. The answers are taken up to the first failure: behind it no answer is looked
    /// at, so a row edited there keeps the function and the failure it had, unless its
    /// text became empty.
    pub open spec fn pass(
        self,
        edits: Seq<(int, Seq<char>, Option<Result<F, Seq<char>>>)>,
    ) -> (Self, bool)
        decreases edits.len(),
    {
        if edits.len() == 0 {
            (self, true)
        } else {
            let (state, going) = self.pass(edits.drop_last());
            let edit = edits.last();
            let taken = state.with_text(edit.0, edit.1);
            if going && edit.2 is Some {
                (
                    taken.with_outcome(edit.0, edit.2->Some_0),
                    taken.proceeds(edit.0, edit.2->Some_0),
                )
            } else {
                (taken, going)
            }
        }
    }

    /// The state after a pass over the rows that the user edited.
    pub open spec fn after_pass(
        self,
        edits: Seq<(int, Seq<char>, Option<Result<F, Seq<char>>>)>,
    ) -> Self {
        self.pass(edits).0
    }

    /// The state after the parser's answers were taken, each for the row it names, in
    /// order. Every answer is taken, also behind one that is a failure.
    pub open spec fn after_answers(self, answers: Seq<(int, Result<F, Seq<char>>)>) -> Self
        decreases answers.len(),
    {
        if answers.len() == 0 {
            self
        } else {
            self.after_answers(answers.drop_last()).with_outcome(
                answers.last().0,
                answers.last().1,
            )
        }
    }

    /// The state after the user asked for one more row: it is added below the others
    /// unless the sidebar is full.
    pub open spec fn with_row_added(self) -> Self {
        if self.entries.len() < MAX_ENTRIES {
            GrapherView {
                entries: self.entries.push(EntryView::empty()),
                failures: self.failures.push(None),
                points: self.points,
            }
        } else {
            self
        }
    }

    /// The state after the user asked to delete a row: the last one goes, with its failure,
    /// unless it is the only one.
    pub open spec fn with_row_removed(self) -> Self {
        if self.entries.len() > 1 {
            GrapherView {
                entries: self.entries.drop_last(),
                failures: self.failures.drop_last(),
                points: self.points,
            }
        } else {
            self
        }
    }

    /// The state after the user chose a resolution: the nearest one in range.
    pub open spec fn with_points(self, points: nat) -> Self {
        GrapherView {
            entries: self.entries,
            failures: self.failures,
            points: clamped_points(points),
        }
    }

    /// The rows among the first `n` that have a function, in order.
    pub open spec fn compiled_among(self, n: nat) -> Seq<int>
        decreases n,
    {
        if n == 0 {
            Seq::empty()
        } else {
            let before = self.compiled_among((n - 1) as nat);
            if n <= self.entries.len() && self.entries[n - 1].func is Some {
                before.push(n - 1)
            } else {
                before
            }
        }
    }

    /// The rows that are drawn as lines: none while an error is shown, else every row that
    /// has a function.
    pub open spec fn drawn(self) -> Seq<int> {
        if self.error() is Some {
            Seq::empty()
        } else {
            self.compiled_among(self.entries.len())
        }
    }
}

/// The resolution in range that is nearest to `points`.
pub open spec fn clamped_points(points: nat) -> nat {
    if points < MIN_POINTS {
        MIN_POINTS as nat
    } else if points > MAX_POINTS {
        MAX_POINTS as nat
    } else {
        points
    }
}

/// The first message is that of the first row that has one.
pub proof fn lemma_first_failure(failures: Seq<Option<Seq<char>>>, row: int)
    requires
        0 <= row < failures.len(),
        failures[row] is Some,
        forall|i: int| 0 <= i < row ==> failures[i] is None,
    ensures
        first_failure(failures) == failures[row],
    decreases failures.len(),
{
    if row < failures.len() - 1 {
        lemma_first_failure(failures.drop_last(), row);
    } else {
        lemma_no_failure(failures.drop_last());
    }
}

/// There is a first message exactly where some row has one.
pub proof fn lemma_no_failure(failures: Seq<Option<Seq<char>>>)
    ensures
        first_failure(failures) is None <==> forall|i: int|
            0 <= i < failures.len() ==> failures[i] is None,
    decreases failures.len(),
{
    if failures.len() > 0 {
        let front = failures.drop_last();
        lemma_no_failure(front);
        if first_failure(failures) is None {
            assert forall|i: int| 0 <= i < failures.len() implies failures[i] is None by {
                if i < front.len() {
                    assert(front[i] is None);
                }
            }
        } else if first_failure(front) is Some {
            let i = choose|i: int| 0 <= i < front.len() && front[i] is Some;
            assert(failures[i] is Some);
        }
    }
}

/// One row of the calculator: its entry, and the parser's message where the last parse of
/// its text failed.
#[derive(Clone, Debug)]
struct Row<F> {
    entry: FunctionEntry<F>,
    failure: Option<String>,
}

/// The calculator: the rows of the sidebar, each with the failure of its last parse if it
/// failed, and the number of points each line is sampled at.
#[derive(Clone, Debug)]
pub struct Grapher<F> {
    rows: Vec<Row<F>>,
    points: usize,
}

/// A message as the contracts see it.
pub open spec fn message_view(message: Option<String>) -> Option<Seq<char>> {
    match message {
        Some(m) => Some(m@),
        None => None,
    }
}

/// The message of a parser's answer, as the contracts see it.
pub open spec fn outcome_view<F>(outcome: Result<F, String>) -> Result<F, Seq<char>> {
    match outcome {
        Ok(f) => Ok(f),
        Err(message) => Err(message@),
    }
}

/// The parser's answers with the rows they are for, as the contracts see them.
pub open spec fn answer_views<F>(answers: Seq<(usize, Result<F, String>)>) -> Seq<
    (int, Result<F, Seq<char>>),
> {
    answers.map_values(|a: (usize, Result<F, String>)| (a.0 as int, outcome_view(a.1)))
}

/// The edits of a pass as the contracts see them.
pub open spec fn pass_view<F>(edits: Seq<(usize, String, Option<Result<F, String>>)>) -> Seq<
    (int, Seq<char>, Option<Result<F, Seq<char>>>),
> {
    edits.map_values(
        |e: (usize, String, Option<Result<F, String>>)|
            (
                e.0 as int,
                e.1@,
                match e.2 {
                    Some(outcome) => Some(outcome_view(outcome)),
                    None => None,
                },
            ),
    )
}

impl<F> View for Grapher<F> {
    type V = GrapherView<F>;

    closed spec fn view(&self) -> GrapherView<F> {
        GrapherView {
            entries: self.rows@.map_values(|row: Row<F>| row.entry@),
            failures: self.rows@.map_values(|row: Row<F>| message_view(row.failure)),
            points: self.points as nat,
        }
    }
}

impl<F> Grapher<F> {
    /// The calculator as it starts.
    pub fn new() -> (grapher: Self)
        ensures
            grapher@ == GrapherView::<F>::initial(),
            grapher@.wf(),
    {
        let mut rows = Vec::new();
        rows.push(Row { entry: FunctionEntry::new(), failure: None });
        let grapher = Grapher { rows, points: DEFAULT_POINTS };
        assert(grapher@.entries =~= seq![EntryView::empty()]);
        assert(grapher@.failures =~= seq![None]);
        grapher
    }

    /// The calculator as it starts from the address `href`: with the entry texts that the
    /// address keeps, none of them parsed yet.
    pub fn from_url(href: &str) -> (grapher: Self)
        ensures
            grapher@ == GrapherView::<F>::from_texts(url_texts(href@)),
            grapher@.wf(),
    {
        let mut data: Vec<FunctionEntry<F>> = Vec::new();
        get_data_from_url(href, &mut data);
        let ghost texts = url_texts(href@);
        assert(entry_views(Seq::<FunctionEntry<F>>::empty()) =~= Seq::empty());
        assert(entry_views(data@) =~= unparsed_entries::<F>(texts));
        if data.len() == 0 {
            return Grapher::new();
        }
        let mut rows: Vec<Row<F>> = Vec::new();
        for entry in it: data
            invariant
                it.seq() == data@,
                rows@.len() == it.index(),
                forall|i: int| 0 <= i < rows@.len() ==> rows@[i].entry == data@[i],
                forall|i: int| 0 <= i < rows@.len() ==> rows@[i].failure is None,
        {
            rows.push(Row { entry, failure: None });
        }
        let grapher = Grapher { rows, points: DEFAULT_POINTS };
        proof {
            assert(grapher@.entries =~= unparsed_entries::<F>(texts));
            assert(grapher@.failures =~= Seq::new(texts.len(), |i: int| None));
        }
        grapher
    }

    /// Writes the fragment that keeps the texts of the rows.
    pub fn url_string(&self) -> (info: String)
        ensures
            info@ == url_string(self@.texts()),
    {
        let mut texts: Vec<&str> = Vec::new();
        let mut n: usize = 0;
        while n < self.rows.len()
            invariant
                n <= self.rows.len(),
                texts@.len() == n,
                forall|i: int| 0 <= i < n ==> texts@[i]@ == self.rows@[i].entry.text@,
            decreases self.rows.len() - n,
        {
            texts.push(self.rows[n].entry.text.as_str());
            n += 1;
        }
        assert(texts@.map_values(|t: &str| t@) =~= self@.texts());
        url_string_from_texts(&texts)
    }

    /// Takes the new text of row `index` and says what the parser is to read for it, if
    /// anything.
    pub fn set_text(&mut self, index: usize, text: String) -> (request: Option<String>)
        ensures
            final(self)@ == old(self)@.with_text(index as int, text@),
            old(self)@.wf() ==> final(self)@.wf(),
            match request {
                Some(source) => index < old(self)@.entries.len() && parse_source(text@) == Some(
                    source@,
                ),
                None => index >= old(self)@.entries.len() || parse_source(text@) is None,
            },
    {
        if index >= self.rows.len() {
            return None;
        }
        let request = parse_request(text.as_str());
        let mut row = Row { entry: FunctionEntry::new(), failure: None };
        self.rows.set_and_swap(index, &mut row);
        if request.is_some() {
            row.entry.text = text;
            self.rows.set(index, row);
            proof {
                assert(self@.entries =~= old(self)@.entries.update(
                    index as int,
                    EntryView { text: text@, func: old(self)@.entries[index as int].func },
                ));
                assert(self@.failures =~= old(self)@.failures);
            }
        } else {
            self.rows.set(index, Row { entry: FunctionEntry { text, func: None }, failure: None });
            proof {
                assert(text@ =~= Seq::<char>::empty());
                assert(self@.entries =~= old(self)@.entries.update(
                    index as int,
                    EntryView::empty(),
                ));
                assert(self@.failures =~= old(self)@.failures.update(index as int, None));
            }
        }
        request
    }

    /// Takes the parser's answer for row `index` and says whether the pass over the edited
    /// rows goes on: it stops at the first failure.
    pub fn set_parsed(&mut self, index: usize, outcome: Result<F, String>) -> (proceed: bool)
        ensures
            final(self)@ == old(self)@.with_outcome(index as int, outcome_view(outcome)),
            old(self)@.wf() ==> final(self)@.wf(),
            proceed == old(self)@.proceeds(index as int, outcome_view(outcome)),
    {
        if index >= self.rows.len() {
            return true;
        }
        let mut row = Row { entry: FunctionEntry::new(), failure: None };
        self.rows.set_and_swap(index, &mut row);
        if row.entry.text.as_str().is_empty() {
            self.rows.set(index, row);
            proof {
                assert(self@.entries =~= old(self)@.entries);
                assert(self@.failures =~= old(self)@.failures);
            }
            return true;
        }
        let ghost text = old(self)@.entries[index as int].text;
        match outcome {
            Ok(f) => {
                row.entry.func = Some(f);
                row.failure = None;
                self.rows.set(index, row);
                proof {
                    assert(self@.entries =~= old(self)@.entries.update(
                        index as int,
                        EntryView { text, func: Some(f) },
                    ));
                    assert(self@.failures =~= old(self)@.failures.update(index as int, None));
                }
                true
            },
            Err(message) => {
                row.entry.func = None;
                row.failure = Some(message);
                self.rows.set(index, row);
                proof {
                    assert(self@.entries =~= old(self)@.entries.update(
                        index as int,
                        EntryView::unparsed(text),
                    ));
                    assert(self@.failures =~= old(self)@.failures.update(
                        index as int,
                        Some(message@),
                    ));
                }
                false
            },
        }
    }

    /// Takes a pass over the rows that the user edited: each edit with its row, the new
    /// text and, where the text was parsed, the parser's answer. Every text is taken; the
    /// answers are taken up to the first failure. Says whether the pass came to its end.
    pub fn take_pass(&mut self, edits: Vec<(usize, String, Option<Result<F, String>>)>) -> (finished:
        bool)
        ensures
            final(self)@ == old(self)@.after_pass(pass_view(edits@)),
            finished == old(self)@.pass(pass_view(edits@)).1,
            old(self)@.wf() ==> final(self)@.wf(),
    {
        let mut going = true;
        let ghost all = pass_view(edits@);
        for edit in it: edits
            invariant
                it.seq() == edits@,
                all == pass_view(edits@),
                (self@, going) == old(self)@.pass(all.take(it.index())),
                old(self)@.wf() ==> self@.wf(),
        {
            proof {
                let done = all.take(it.index() + 1);
                assert(done.drop_last() == all.take(it.index()));
                assert(done.last() == all[it.index()]);
            }
            let (index, text, answer) = edit;
            self.set_text(index, text);
            if going {
                match answer {
                    Some(outcome) => {
                        going = self.set_parsed(index, outcome);
                    },
                    None => {},
                }
            }
        }
        proof {
            assert(all.take(all.len() as int) == all);
        }
        going
    }

    /// Takes the parser's answers for the rows they name, in order. Every answer is taken:
    /// each row gets its function or its failure.
    pub fn set_all_parsed(&mut self, answers: Vec<(usize, Result<F, String>)>)
        ensures
            final(self)@ == old(self)@.after_answers(answer_views(answers@)),
            old(self)@.wf() ==> final(self)@.wf(),
    {
        let ghost all = answer_views(answers@);
        for answer in it: answers
            invariant
                it.seq() == answers@,
                all == answer_views(answers@),
                self@ == old(self)@.after_answers(all.take(it.index())),
                old(self)@.wf() ==> self@.wf(),
        {
            proof {
                let done = all.take(it.index() + 1);
                assert(done.drop_last() == all.take(it.index()));
                assert(done.last() == (answer.0 as int, outcome_view(answer.1)));
            }
            self.set_parsed(answer.0, answer.1);
        }
        proof {
            assert(all.take(all.len() as int) == all);
        }
    }

    /// Says whether the sidebar offers to add a row.
    pub fn can_add(&self) -> (offered: bool)
        ensures
            offered <==> self@.entries.len() < MAX_ENTRIES,
    {
        self.rows.len() < MAX_ENTRIES
    }

    /// Says whether the sidebar offers to delete a row.
    pub fn can_remove(&self) -> (offered: bool)
        ensures
            offered <==> self@.entries.len() > 1,
    {
        self.rows.len() > 1
    }

    /// Adds an empty row below the others unless the sidebar is full.
    pub fn add_entry(&mut self)
        ensures
            final(self)@ == old(self)@.with_row_added(),
            old(self)@.wf() ==> final(self)@.wf(),
    {
        if self.rows.len() < MAX_ENTRIES {
            self.rows.push(Row { entry: FunctionEntry::new(), failure: None });
            proof {
                assert(self@.entries =~= old(self)@.entries.push(EntryView::empty()));
                assert(self@.failures =~= old(self)@.failures.push(None));
            }
        }
    }

    /// Deletes the last row unless it is the only one.
    pub fn remove_entry(&mut self)
        ensures
            final(self)@ == old(self)@.with_row_removed(),
            old(self)@.wf() ==> final(self)@.wf(),
    {
        if self.rows.len() > 1 {
            self.rows.pop();
            proof {
                assert(self@.entries =~= old(self)@.entries.drop_last());
                assert(self@.failures =~= old(self)@.failures.drop_last());
            }
        }
    }

    /// The entries of the rows, in order.
    pub fn entries(&self) -> (data: Vec<&FunctionEntry<F>>)
        ensures
            data@.len() == self@.entries.len(),
            forall|i: int| 0 <= i < data@.len() ==> (#[trigger] data@[i])@ == self@.entries[i],
    {
        let mut data: Vec<&FunctionEntry<F>> = Vec::new();
        let mut n: usize = 0;
        while n < self.rows.len()
            invariant
                n <= self.rows.len(),
                data@.len() == n,
                forall|i: int| 0 <= i < n ==> *data@[i] == self.rows@[i].entry,
            decreases self.rows.len() - n,
        {
            data.push(&self.rows[n].entry);
            n += 1;
        }
        data
    }

    /// The error that is shown: the message of the first row, from the top, whose last
    /// parse failed.
    pub fn error(&self) -> (message: Option<&String>)
        ensures
            match message {
                Some(m) => self@.error() == Some(m@),
                None => self@.error() is None,
            },
    {
        let mut n: usize = 0;
        while n < self.rows.len()
            invariant
                n <= self.rows.len(),
                self@.failures.len() == self.rows.len(),
                forall|i: int| 0 <= i < n ==> self@.failures[i] is None,
            decreases self.rows.len() - n,
        {
            match &self.rows[n].failure {
                Some(message) => {
                    proof {
                        assert(self@.failures[n as int] == Some(message@));
                        lemma_first_failure(self@.failures, n as int);
                    }
                    return Some(message);
                },
                None => {
                    assert(self@.failures[n as int] is None);
                },
            }
            n += 1;
        }
        proof {
            lemma_no_failure(self@.failures);
        }
        None
    }

    /// The number of points each line is sampled at.
    pub fn points(&self) -> (points: usize)
        ensures
            points == self@.points,
            self@.wf() ==> MIN_POINTS <= points <= MAX_POINTS,
    {
        self.points
    }

    /// Takes the resolution the user chose, brought into range.
    pub fn set_points(&mut self, points: usize)
        ensures
            final(self)@ == old(self)@.with_points(points as nat),
            old(self)@.wf() ==> final(self)@.wf(),
    {
        self.points = clamp_resolution(points);
    }

    /// The rows to draw as lines, in order: none while an error is shown.
    pub fn lines(&self) -> (rows: Vec<usize>)
        ensures
            rows@.len() == self@.drawn().len(),
            forall|i: int| 0 <= i < rows@.len() ==> rows@[i] as int == self@.drawn()[i],
    {
        let mut rows: Vec<usize> = Vec::new();
        if self.error().is_some() {
            return rows;
        }
        let mut n: usize = 0;
        while n < self.rows.len()
            invariant
                n <= self.rows.len(),
                self@.entries.len() == self.rows.len(),
                forall|i: int|
                    0 <= i < self.rows.len() ==> self@.entries[i] == self.rows[i].entry@,
                rows@.len() == self@.compiled_among(n as nat).len(),
                forall|i: int|
                    0 <= i < rows@.len() ==> rows@[i] as int == self@.compiled_among(n as nat)[i],
            decreases self.rows.len() - n,
        {
            if self.rows[n].entry.func.is_some() {
                rows.push(n);
            }
            n += 1;
        }
        rows
    }
}

impl<F> Default for Grapher<F> {
    /// The calculator as it starts.
    fn default() -> (grapher: Self)
        ensures
            grapher@ == GrapherView::<F>::initial(),
            grapher@.wf(),
    {
        Grapher::new()
    }
}

/// Brings a resolution into range.
pub fn clamp_resolution(points: usize) -> (clamped: usize)
    ensures
        clamped == clamped_points(points as nat),
        MIN_POINTS <= clamped <= MAX_POINTS,
{
    if points < MIN_POINTS {
        MIN_POINTS
    } else if points > MAX_POINTS {
        MAX_POINTS
    } else {
        points
    }
}

} // verus!
