//! Reading whole sessions, line by line: all of one, or its newest records.
use crate::output::{output_views, Output, OutputView};
use crate::session::{
    check_line, json_of, json_u64, line_verdict, parsed_view, read_record, record_verdict,
    rfc3339_complaint, stored, stored_outputs_load_back, tail_keeps_the_newest, tail_of,
    LineCheck, RecordView, SessionError, SessionErrorView, StoredRecord, Tail,
};
use crate::text::trim;
use vstd::prelude::*;

verus! {

/// What ends each line of a session.
pub const LINE_END: &'static str = "\n";

// --- lines ---------------------------------------------------------------------------------

/// A line without the line feed that ends it, nor a carriage return before that.
pub open spec fn unterminated(raw: Seq<char>) -> Seq<char> {
    if raw.len() > 0 && raw.last() == '\n' {
        let s = raw.drop_last();
        if s.len() > 0 && s.last() == '\r' {
            s.drop_last()
        } else {
            s
        }
    } else {
        raw
    }
}

/// Takes the end off a line.
fn without_end(raw: &str) -> (s: String)
    ensures
        s@ == unterminated(raw@),
{
    let mut s = raw.to_owned();
    match s.pop() {
        Some(last) => {
            assert(raw@.drop_last().push(last) =~= raw@);
            if last == '\n' {
                let ghost body = s@;
                match s.pop() {
                    Some(c) => {
                        assert(body.drop_last().push(c) =~= body);
                        if c != '\r' {
                            s.push(c);
                        }
                    },
                    None => {},
                }
            } else {
                s.push(last);
            }
        },
        None => {},
    }
    s
}

/// A line of a session: its text, and what its document parses into. Where the text holds
/// no document of the supported schema, the latter is not looked at.
pub struct Entry {
    pub text: Seq<char>,
    pub parsed: Result<RecordView, Seq<char>>,
}

/// A line with no document to parse.
pub open spec fn bare(text: Seq<char>) -> Entry {
    Entry { text, parsed: Err(Seq::empty()) }
}

/// What a line of a session adds to it: nothing where it is blank.
pub open spec fn line_read(path: Seq<char>, line: usize, e: Entry) -> Result<
    Option<OutputView>,
    SessionErrorView,
> {
    match line_verdict(path, line, e.text) {
        Ok(LineCheck::Blank) => Ok(None),
        Ok(LineCheck::Record(_)) => match record_verdict(path, line, e.parsed) {
            Ok(o) => Ok(Some(o)),
            Err(e) => Err(e),
        },
        Err(e) => Err(e),
    }
}

/// The outputs of a session of some lines, numbered from one; the first bad line refuses it.
pub open spec fn session_read(path: Seq<char>, lines: Seq<Entry>) -> Result<
    Seq<OutputView>,
    SessionErrorView,
>
    decreases lines.len(),
{
    if lines.len() == 0 {
        Ok(Seq::empty())
    } else {
        match session_read(path, lines.drop_last()) {
            Ok(before) => match line_read(path, lines.len() as usize, lines.last()) {
                Ok(Some(o)) => Ok(before.push(o)),
                Ok(None) => Ok(before),
                Err(e) => Err(e),
            },
            Err(e) => Err(e),
        }
    }
}

// --- the reader ------------------------------------------------------------------------------

/// Reads a session line by line: each line is handed to [`SessionReader::line`], and what
/// the document of one parses into, where it holds one, to [`SessionReader::record`]. The
/// first error refuses the session.
pub struct SessionReader {
    path: String,
    lines: usize,
    refused: bool,
    entries: Ghost<Seq<Entry>>,
    pending: Ghost<Option<Seq<char>>>,
}

/// What a [`SessionReader`] has read: the lines, the text of the last one while its
/// document is still to come, and whether the session is refused.
pub struct ReaderView {
    pub path: Seq<char>,
    pub entries: Seq<Entry>,
    pub pending: Option<Seq<char>>,
    pub refused: bool,
}

impl View for SessionReader {
    type V = ReaderView;

    closed spec fn view(&self) -> ReaderView {
        ReaderView {
            path: self.path@,
            entries: self.entries@,
            pending: self.pending@,
            refused: self.refused,
        }
    }
}

/// A reader of nothing yet.
pub open spec fn nothing_read(path: Seq<char>) -> ReaderView {
    ReaderView { path, entries: Seq::empty(), pending: None, refused: false }
}

/// How many lines a reader has seen.
pub open spec fn lines_seen(r: ReaderView) -> nat {
    if r.pending is Some {
        r.entries.len() + 1
    } else {
        r.entries.len()
    }
}

/// Whether a reader takes another line.
pub open spec fn takes_lines(r: ReaderView) -> bool {
    r.pending is None && !r.refused
}

/// A reader after one more line.
pub open spec fn line_taken(r: ReaderView, text: Seq<char>) -> ReaderView {
    match line_verdict(r.path, (r.entries.len() + 1) as usize, text) {
        Ok(LineCheck::Blank) => ReaderView { entries: r.entries.push(bare(text)), ..r },
        Ok(LineCheck::Record(_)) => ReaderView { pending: Some(text), ..r },
        Err(_) => ReaderView { entries: r.entries.push(bare(text)), refused: true, ..r },
    }
}

/// A reader after the document of its last line.
pub open spec fn record_taken(r: ReaderView, parsed: Result<RecordView, Seq<char>>) -> ReaderView {
    ReaderView {
        entries: r.entries.push(Entry { text: r.pending->0, parsed }),
        pending: None,
        refused: record_verdict(r.path, (r.entries.len() + 1) as usize, parsed) is Err,
        ..r
    }
}

/// Whether what a reader holds is a session read so far: refused exactly where a line is bad.
pub open spec fn read_so_far(r: ReaderView) -> bool {
    &&& r.refused == (session_read(r.path, r.entries) is Err)
    &&& r.refused ==> r.pending is None
    &&& r.pending matches Some(text) ==> line_verdict(
        r.path,
        (r.entries.len() + 1) as usize,
        text,
    ) matches Ok(LineCheck::Record(_))
}

/// What the outputs of a session become when one more line has been read.
proof fn lemma_one_more(path: Seq<char>, entries: Seq<Entry>, e: Entry)
    ensures
        session_read(path, entries.push(e)) == (match session_read(path, entries) {
            Ok(before) => match line_read(path, (entries.len() + 1) as usize, e) {
                Ok(Some(o)) => Ok(before.push(o)),
                Ok(None) => Ok(before),
                Err(x) => Err(x),
            },
            Err(x) => Err(x),
        }),
{
    assert(entries.push(e).drop_last() =~= entries);
}

impl SessionReader {
    pub closed spec fn wf(&self) -> bool {
        &&& self.lines == lines_seen(self@)
        &&& read_so_far(self@)
    }

    /// The lines seen fit a machine word, and the session is refused exactly where a line
    /// is bad.
    pub proof fn wf_holds(&self)
        requires
            self.wf(),
        ensures
            lines_seen(self@) <= usize::MAX,
            read_so_far(self@),
    {
    }

    pub fn new(path: &str) -> (r: SessionReader)
        ensures
            r.wf(),
            r@ == nothing_read(path@),
    {
        SessionReader {
            path: path.to_owned(),
            lines: 0,
            refused: false,
            entries: Ghost(Seq::empty()),
            pending: Ghost(None),
        }
    }

    /// How many lines have been seen.
    pub fn lines(&self) -> (n: usize)
        requires
            self.wf(),
        ensures
            n == lines_seen(self@),
    {
        self.lines
    }

    /// Takes the next line, with or without its end: passes over a blank one, hands out the
    /// document of one that holds a record, and refuses the session otherwise.
    pub fn line(&mut self, raw: &str) -> (r: Result<LineCheck, SessionError>)
        requires
            old(self).wf(),
            takes_lines(old(self)@),
            lines_seen(old(self)@) < usize::MAX,
        ensures
            final(self).wf(),
            final(self)@ == line_taken(old(self)@, unterminated(raw@)),
            ({
                let want = line_verdict(
                    old(self)@.path,
                    (old(self)@.entries.len() + 1) as usize,
                    unterminated(raw@),
                );
                match r {
                    Ok(c) => want == Ok::<LineCheck, SessionErrorView>(c),
                    Err(e) => want == Err::<LineCheck, SessionErrorView>(e@),
                }
            }),
    {
        let text = without_end(raw);
        self.lines = self.lines + 1;
        let r = check_line(self.path.as_str(), self.lines, text.as_str());
        proof {
            lemma_one_more(self.path@, self.entries@, bare(text@));
        }
        match &r {
            Ok(LineCheck::Blank) => {
                self.entries = Ghost(self.entries@.push(bare(text@)));
            },
            Ok(LineCheck::Record(_)) => {
                self.pending = Ghost(Some(text@));
            },
            Err(_) => {
                self.entries = Ghost(self.entries@.push(bare(text@)));
                self.refused = true;
            },
        }
        r
    }

    /// Takes what the document of the last line parses into, and restores its output or
    /// refuses the session.
    pub fn record(&mut self, parsed: Result<StoredRecord, String>) -> (r: Result<
        Output,
        SessionError,
    >)
        requires
            old(self).wf(),
            old(self)@.pending is Some,
        ensures
            final(self).wf(),
            final(self)@ == record_taken(old(self)@, parsed_view(parsed)),
            ({
                let want = record_verdict(
                    old(self)@.path,
                    (old(self)@.entries.len() + 1) as usize,
                    parsed_view(parsed),
                );
                match r {
                    Ok(o) => want == Ok::<OutputView, SessionErrorView>(o@),
                    Err(e) => want == Err::<OutputView, SessionErrorView>(e@),
                }
            }),
    {
        let ghost e = Entry { text: self.pending@->0, parsed: parsed_view(parsed) };
        proof {
            lemma_one_more(self.path@, self.entries@, e);
        }
        let r = read_record(self.path.as_str(), self.lines, parsed);
        if r.is_err() {
            self.refused = true;
        }
        self.entries = Ghost(self.entries@.push(e));
        self.pending = Ghost(None);
        r
    }
}

// --- whole sessions and tails --------------------------------------------------------------

/// Reads a whole session.
pub struct WholeSession {
    reader: SessionReader,
    outputs: Vec<Output>,
}

impl View for WholeSession {
    type V = ReaderView;

    closed spec fn view(&self) -> ReaderView {
        self.reader@
    }
}

impl WholeSession {
    pub closed spec fn wf(&self) -> bool {
        &&& self.reader.wf()
        &&& !self@.refused ==> session_read(self@.path, self@.entries) == Ok::<
            Seq<OutputView>,
            SessionErrorView,
        >(self.outputs())
    }

    /// The outputs so far.
    pub closed spec fn outputs(&self) -> Seq<OutputView> {
        output_views(self.outputs@)
    }

    /// The session is refused exactly where a line is bad, and otherwise the outputs are
    /// those of its lines.
    pub proof fn wf_holds(&self)
        requires
            self.wf(),
        ensures
            lines_seen(self@) <= usize::MAX,
            read_so_far(self@),
            !self@.refused ==> session_read(self@.path, self@.entries) == Ok::<
                Seq<OutputView>,
                SessionErrorView,
            >(self.outputs()),
    {
        self.reader.wf_holds();
    }

    pub fn new(path: &str) -> (w: WholeSession)
        ensures
            w.wf(),
            w@ == nothing_read(path@),
            w.outputs() == Seq::<OutputView>::empty(),
    {
        let w = WholeSession { reader: SessionReader::new(path), outputs: Vec::new() };
        assert(w.outputs() =~= Seq::<OutputView>::empty());
        w
    }

    /// How many lines have been seen.
    pub fn lines(&self) -> (n: usize)
        requires
            self.wf(),
        ensures
            n == lines_seen(self@),
    {
        self.reader.lines()
    }

    /// Takes the next line, as [`SessionReader::line`] does.
    pub fn line(&mut self, raw: &str) -> (r: Result<LineCheck, SessionError>)
        requires
            old(self).wf(),
            takes_lines(old(self)@),
            lines_seen(old(self)@) < usize::MAX,
        ensures
            final(self).wf(),
            final(self)@ == line_taken(old(self)@, unterminated(raw@)),
            final(self).outputs() == old(self).outputs(),
            ({
                let want = line_verdict(
                    old(self)@.path,
                    (old(self)@.entries.len() + 1) as usize,
                    unterminated(raw@),
                );
                match r {
                    Ok(c) => want == Ok::<LineCheck, SessionErrorView>(c),
                    Err(e) => want == Err::<LineCheck, SessionErrorView>(e@),
                }
            }),
    {
        let ghost before = self@;
        proof {
            lemma_one_more(before.path, before.entries, bare(unterminated(raw@)));
        }
        self.reader.line(raw)
    }

    /// Takes what the document of the last line parses into, and keeps its output.
    pub fn record(&mut self, parsed: Result<StoredRecord, String>) -> (r: Result<
        (),
        SessionError,
    >)
        requires
            old(self).wf(),
            old(self)@.pending is Some,
        ensures
            final(self).wf(),
            final(self)@ == record_taken(old(self)@, parsed_view(parsed)),
            ({
                let want = record_verdict(
                    old(self)@.path,
                    (old(self)@.entries.len() + 1) as usize,
                    parsed_view(parsed),
                );
                match r {
                    Ok(()) => want matches Ok(o)
                        && final(self).outputs() == old(self).outputs().push(o),
                    Err(e) => want == Err::<OutputView, SessionErrorView>(e@)
                        && final(self).outputs() == old(self).outputs(),
                }
            }),
    {
        let ghost before = self@;
        let ghost kept = self.outputs@;
        proof {
            self.reader.wf_holds();
            let e = Entry { text: before.pending->0, parsed: parsed_view(parsed) };
            lemma_one_more(before.path, before.entries, e);
        }
        match self.reader.record(parsed) {
            Ok(o) => {
                self.outputs.push(o);
                assert(output_views(self.outputs@) =~= output_views(kept).push(o@));
                Ok(())
            },
            Err(e) => Err(e),
        }
    }

    /// The outputs of the session.
    pub fn finish(self) -> (v: Vec<Output>)
        requires
            self.wf(),
            takes_lines(self@),
        ensures
            session_read(self@.path, self@.entries) == Ok::<Seq<OutputView>, SessionErrorView>(
                output_views(v@),
            ),
            output_views(v@) == self.outputs(),
    {
        self.outputs
    }
}

/// The newest `cap` outputs of a session, in order.
pub open spec fn newest_of(outputs: Seq<OutputView>, cap: usize) -> Seq<OutputView> {
    if outputs.len() <= cap {
        outputs
    } else {
        outputs.skip(outputs.len() - cap)
    }
}

/// Reads a session while keeping only its newest records. Every line is checked, whether
/// its record is kept or not.
pub struct SessionTail {
    reader: SessionReader,
    tail: Tail,
    all: Ghost<Seq<Output>>,
}

impl View for SessionTail {
    type V = ReaderView;

    closed spec fn view(&self) -> ReaderView {
        self.reader@
    }
}

impl SessionTail {
    pub closed spec fn wf(&self) -> bool {
        &&& self.reader.wf()
        &&& self.tail@ == tail_of(self.cap(), self.all@)
        &&& !self@.refused ==> session_read(self@.path, self@.entries) == Ok::<
            Seq<OutputView>,
            SessionErrorView,
        >(output_views(self.all@))
    }

    /// How many records are kept at most.
    pub closed spec fn cap(&self) -> usize {
        self.tail@.cap
    }

    /// The outputs kept so far.
    pub closed spec fn kept(&self) -> Seq<OutputView> {
        output_views(self.tail@.records)
    }

    /// How many outputs were not kept.
    pub closed spec fn dropped(&self) -> nat {
        self.tail@.dropped as nat
    }

    /// The session is refused exactly where a line is bad, and otherwise its newest outputs
    /// are kept and the others counted.
    pub proof fn wf_holds(&self)
        requires
            self.wf(),
        ensures
            lines_seen(self@) <= usize::MAX,
            read_so_far(self@),
            !self@.refused ==> (session_read(self@.path, self@.entries) matches Ok(outputs)
                && self.kept() == newest_of(outputs, self.cap()) && self.dropped()
                == outputs.len() - self.kept().len()),
    {
        self.reader.wf_holds();
        if !self@.refused {
            let all = self.all@;
            sessions_are_no_longer_than_their_lines(self@.path, self@.entries);
            assert(output_views(all).len() == all.len());
            tail_keeps_the_newest(self.cap(), all);
            assert(self.kept() =~= newest_of(output_views(all), self.cap()));
        }
    }

    pub fn new(path: &str, cap: usize) -> (t: SessionTail)
        ensures
            t.wf(),
            t@ == nothing_read(path@),
            t.cap() == cap,
    {
        let t = SessionTail {
            reader: SessionReader::new(path),
            tail: Tail::new(cap),
            all: Ghost(Seq::empty()),
        };
        assert(output_views(t.all@) =~= Seq::<OutputView>::empty());
        t
    }

    /// How many lines have been seen.
    pub fn lines(&self) -> (n: usize)
        requires
            self.wf(),
        ensures
            n == lines_seen(self@),
    {
        self.reader.lines()
    }

    /// Takes the next line, as [`SessionReader::line`] does.
    pub fn line(&mut self, raw: &str) -> (r: Result<LineCheck, SessionError>)
        requires
            old(self).wf(),
            takes_lines(old(self)@),
            lines_seen(old(self)@) < usize::MAX,
        ensures
            final(self).wf(),
            final(self).cap() == old(self).cap(),
            final(self)@ == line_taken(old(self)@, unterminated(raw@)),
            ({
                let want = line_verdict(
                    old(self)@.path,
                    (old(self)@.entries.len() + 1) as usize,
                    unterminated(raw@),
                );
                match r {
                    Ok(c) => want == Ok::<LineCheck, SessionErrorView>(c),
                    Err(e) => want == Err::<LineCheck, SessionErrorView>(e@),
                }
            }),
    {
        let ghost before = self@;
        proof {
            lemma_one_more(before.path, before.entries, bare(unterminated(raw@)));
        }
        self.reader.line(raw)
    }

    /// Takes what the document of the last line parses into, and its output into the tail.
    pub fn record(&mut self, parsed: Result<StoredRecord, String>) -> (r: Result<
        (),
        SessionError,
    >)
        requires
            old(self).wf(),
            old(self)@.pending is Some,
        ensures
            final(self).wf(),
            final(self).cap() == old(self).cap(),
            final(self)@ == record_taken(old(self)@, parsed_view(parsed)),
            ({
                let want = record_verdict(
                    old(self)@.path,
                    (old(self)@.entries.len() + 1) as usize,
                    parsed_view(parsed),
                );
                match r {
                    Ok(()) => want is Ok,
                    Err(e) => want == Err::<OutputView, SessionErrorView>(e@),
                }
            }),
    {
        let ghost before = self@;
        let ghost all = self.all@;
        proof {
            self.reader.wf_holds();
            let e = Entry { text: before.pending->0, parsed: parsed_view(parsed) };
            lemma_one_more(before.path, before.entries, e);
        }
        match self.reader.record(parsed) {
            Ok(o) => {
                let ghost kept = o;
                self.tail.push(o);
                self.all = Ghost(all.push(kept));
                assert(output_views(self.all@) =~= output_views(all).push(kept@));
                assert(self.all@.drop_last() =~= all);
                Ok(())
            },
            Err(e) => Err(e),
        }
    }

    /// The newest outputs of the session, and how many came before them.
    pub fn finish(self) -> (r: (Vec<Output>, usize))
        requires
            self.wf(),
            takes_lines(self@),
        ensures
            session_read(self@.path, self@.entries) matches Ok(outputs) && output_views(r.0@)
                == newest_of(outputs, self.cap()) && r.1 == outputs.len() - r.0@.len(),
            output_views(r.0@) == self.kept(),
            r.1 == self.dropped(),
    {
        proof {
            self.wf_holds();
        }
        let r = self.tail.finish();
        assert(output_views(r.0@).len() == r.0@.len());
        r
    }
}

// --- laws --------------------------------------------------------------------------------------

/// A session holds at most as many outputs as lines.
pub proof fn sessions_are_no_longer_than_their_lines(path: Seq<char>, lines: Seq<Entry>)
    ensures
        session_read(path, lines) matches Ok(outputs) ==> outputs.len() <= lines.len(),
    decreases lines.len(),
{
    if lines.len() > 0 {
        sessions_are_no_longer_than_their_lines(path, lines.drop_last());
    }
}

/// A session is refused exactly where one of its lines is bad, and for its first bad line.
pub proof fn the_first_bad_line_refuses_the_session(path: Seq<char>, lines: Seq<Entry>)
    requires
        lines.len() <= usize::MAX,
    ensures
        match session_read(path, lines) {
            Ok(_) => forall|i: int|
                0 <= i < lines.len() ==> line_read(path, (i + 1) as usize, #[trigger] lines[i]) is Ok,
            Err(e) => exists|i: int| #[trigger] first_bad(path, lines, i, e),
        },
    decreases lines.len(),
{
    if lines.len() > 0 {
        let less = lines.drop_last();
        let n = lines.len() - 1;
        the_first_bad_line_refuses_the_session(path, less);
        match session_read(path, less) {
            Ok(_) => {
                assert forall|i: int| 0 <= i < n implies line_read(
                    path,
                    (i + 1) as usize,
                    #[trigger] lines[i],
                ) is Ok by {
                    assert(less[i] == lines[i]);
                }
                assert(lines[n] == lines.last());
                if let Err(e) = line_read(path, lines.len() as usize, lines.last()) {
                    assert(first_bad(path, lines, n, e));
                }
            },
            Err(e) => {
                let i = choose|i: int| #[trigger] first_bad(path, less, i, e);
                assert forall|j: int| 0 <= j < i implies line_read(
                    path,
                    (j + 1) as usize,
                    #[trigger] lines[j],
                ) is Ok by {
                    assert(less[j] == lines[j]);
                }
                assert(lines[i] == less[i]);
                assert(first_bad(path, lines, i, e));
            },
        }
    }
}

/// Whether the line at `i` is the first bad one, and what is wrong with it.
pub open spec fn first_bad(
    path: Seq<char>,
    lines: Seq<Entry>,
    i: int,
    e: SessionErrorView,
) -> bool {
    &&& 0 <= i < lines.len()
    &&& line_read(path, (i + 1) as usize, lines[i]) == Err::<Option<OutputView>, SessionErrorView>(
        e,
    )
    &&& forall|j: int|
        0 <= j < i ==> line_read(path, (j + 1) as usize, #[trigger] lines[j]) is Ok
}

/// Whether a line is that of a document which stores an output, as it is written: with a
/// line end behind it. `now` is the time under which a line or status is stored.
pub open spec fn line_holds(e: Entry, document: Seq<char>, o: OutputView, now: Seq<char>) -> bool {
    &&& e.text == unterminated(document + LINE_END@)
    &&& trim(document).len() > 0
    &&& document.last() != '\r'
    &&& json_of(document) matches Ok(v) && json_u64(v, "schema_version"@) == Some(
        stored(o, now).schema_version as u64,
    )
    &&& e.parsed == Ok::<RecordView, Seq<char>>(stored(o, now))
    &&& rfc3339_complaint(stored(o, now).timestamp) is None
}

/// What was stored loads back: a reader that has read the line of each stored output, in
/// order, holds those outputs and no others.
pub proof fn stored_sessions_load_back(
    outputs: Seq<OutputView>,
    times: Seq<Seq<char>>,
    documents: Seq<Seq<char>>,
    whole: WholeSession,
)
    requires
        whole.wf(),
        outputs.len() == documents.len() == times.len() == whole@.entries.len(),
        forall|i: int|
            0 <= i < outputs.len() ==> line_holds(
                #[trigger] whole@.entries[i],
                documents[i],
                outputs[i],
                times[i],
            ),
        forall|i: int|
            0 <= i < outputs.len() ==> (#[trigger] outputs[i] matches OutputView::Message {
                message,
                ..
            } ==> crate::addr_laws::scope_fits(message.client)),
    ensures
        !whole@.refused,
        whole.outputs() == outputs,
{
    whole.wf_holds();
    lemma_stored(outputs, times, documents, whole@.entries, whole@.path);
}

proof fn lemma_stored(
    outputs: Seq<OutputView>,
    times: Seq<Seq<char>>,
    documents: Seq<Seq<char>>,
    lines: Seq<Entry>,
    path: Seq<char>,
)
    requires
        outputs.len() == documents.len() == times.len() == lines.len() <= usize::MAX,
        forall|i: int|
            0 <= i < outputs.len() ==> line_holds(
                #[trigger] lines[i],
                documents[i],
                outputs[i],
                times[i],
            ),
        forall|i: int|
            0 <= i < outputs.len() ==> (#[trigger] outputs[i] matches OutputView::Message {
                message,
                ..
            } ==> crate::addr_laws::scope_fits(message.client)),
    ensures
        session_read(path, lines) == Ok::<Seq<OutputView>, SessionErrorView>(outputs),
    decreases lines.len(),
{
    if lines.len() > 0 {
        let n = lines.len() - 1;
        lemma_stored(
            outputs.drop_last(),
            times.drop_last(),
            documents.drop_last(),
            lines.drop_last(),
            path,
        );
        assert(line_holds(lines[n], documents[n], outputs[n], times[n]));
        assert(outputs[n] matches OutputView::Message { message, .. }
            ==> crate::addr_laws::scope_fits(message.client));
        stored_outputs_load_back(outputs[n], times[n], path, lines.len() as usize);
        lemma_framed(documents[n]);
        assert(outputs.drop_last().push(outputs[n]) =~= outputs);
    } else {
        assert(outputs =~= Seq::empty());
    }
}

/// Taking the end off a line that was written gives its document back.
proof fn lemma_framed(document: Seq<char>)
    requires
        trim(document).len() > 0,
        document.last() != '\r',
    ensures
        unterminated(document + LINE_END@) == document,
{
    reveal_strlit("\n");
    let raw = document + LINE_END@;
    assert(raw.last() == '\n');
    assert(raw.drop_last() =~= document);
}

/// Reading the tail of a session and reading the whole of it refuse it alike, even for a
/// bad line whose record would not be kept. Where neither does, the tail holds the newest
/// outputs of the whole in order, and counts the others.
pub proof fn tails_agree_with_whole_sessions(whole: WholeSession, tail: SessionTail)
    requires
        whole.wf(),
        tail.wf(),
        whole@.path == tail@.path,
        whole@.entries == tail@.entries,
    ensures
        whole@.refused == tail@.refused,
        !whole@.refused ==> tail.kept() == newest_of(whole.outputs(), tail.cap())
            && tail.dropped() == whole.outputs().len() - tail.kept().len(),
{
    whole.wf_holds();
    tail.wf_holds();
}

} // verus!
