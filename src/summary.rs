//! The decisions of a summarization run: which prompts go out and in what
//! order, how replies are put together, and how failures are classified.
//! The exchanges themselves are made by the caller, one at a time: it asks
//! the run for the next prompt, sends it, and records the reply.
use vstd::prelude::*;
use vstd::utf8::encode_utf8;
use crate::chunk::{chunks, concat_all, plan_chunks};
use crate::prompt::{PromptCatalog, UnknownPromptError};
use crate::text::{chars_of, push_str, string_views};

verus! {

/// The default budget of one exchange, in characters of transcript.
pub const MAX_TOKENS: usize = 15000;

/// Error text that marks an exhausted quota.
pub const QUOTA_MARKER: &'static str = "insufficient_quota";

/// Error text that marks an exhausted quota.
pub const QUOTA_EXCEEDED_MARKER: &'static str = "exceeded your current quota";

/// Error text that marks a rejected credential.
pub const INVALID_KEY_MARKER: &'static str = "invalid_api_key";

/// Error text that marks a rejected credential.
pub const INCORRECT_KEY_MARKER: &'static str = "Incorrect API key";

/// The result text when the transcript is empty.
pub const NO_CONTENT_MESSAGE: &'static str =
    "Error: No subtitle content was extracted from the video.";

/// The result text when the exchanges succeeded but produced no text.
pub const EMPTY_RESPONSE_MESSAGE: &'static str =
    "Error: OpenAI API returned empty response. This usually indicates:\n1. API quota exceeded - \
    check your billing at https://platform.openai.com/account/billing\n2. Invalid API key - check \
    your API key at https://platform.openai.com/account/api-keys\n3. Content filtering - the \
    content may have been filtered out";

/// The result text when the quota is exhausted.
pub const QUOTA_MESSAGE: &'static str =
    "Error: OpenAI API quota exceeded. Please check your billing and add credits at \
    https://platform.openai.com/account/billing";

/// The result text when the credential is rejected.
pub const INVALID_KEY_MESSAGE: &'static str =
    "Error: Invalid OpenAI API key. Please check your API key at \
    https://platform.openai.com/account/api-keys";

/// Precedes the error text of another failure on the chunked path.
pub const LONG_FAILURE_PREFIX: &'static str = "Error processing long input: ";

/// Precedes the error text of another failure on the single-exchange path.
pub const SHORT_FAILURE_PREFIX: &'static str = "Error processing short input: ";

/// `p` occurs in `s` at position `i`.
pub open spec fn occurs_at(s: Seq<char>, p: Seq<char>, i: int) -> bool {
    0 <= i && i + p.len() <= s.len() && s.subrange(i, i + p.len()) == p
}

/// `p` occurs somewhere in `s`.
pub open spec fn occurs_in(s: Seq<char>, p: Seq<char>) -> bool {
    exists|i: int| occurs_at(s, p, i)
}

fn occurs_here(s: &Vec<char>, p: &Vec<char>, i: usize) -> (r: bool)
    requires
        i + p.len() <= s.len(),
    ensures
        r == occurs_at(s@, p@, i as int),
{
    let mut k: usize = 0;
    while k < p.len()
        invariant
            i + p.len() <= s.len(),
            k <= p.len(),
            s@.subrange(i as int, i + k) == p@.subrange(0, k as int),
        decreases p.len() - k,
    {
        if s[i + k] != p[k] {
            assert(s@.subrange(i as int, i + p.len())[k as int] != p@[k as int]);
            return false;
        }
        assert(s@.subrange(i as int, i + k + 1) =~= s@.subrange(i as int, i + k).push(s@[i + k]));
        assert(p@.subrange(0, k + 1) =~= p@.subrange(0, k as int).push(p@[k as int]));
        k = k + 1;
    }
    assert(p@.subrange(0, k as int) =~= p@);
    true
}

/// Whether `p` occurs in `s`.
pub fn occurs(s: &str, p: &str) -> (r: bool)
    ensures
        r == occurs_in(s@, p@),
{
    let sv = chars_of(s);
    let pv = chars_of(p);
    if pv.len() > sv.len() {
        return false;
    }
    if pv.len() == 0 {
        assert(occurs_at(s@, p@, 0)) by {
            assert(s@.subrange(0, 0) =~= p@);
        }
        return true;
    }
    let mut i: usize = 0;
    while i <= sv.len() - pv.len()
        invariant
            0 < pv.len() <= sv.len(),
            sv@ == s@,
            pv@ == p@,
            forall|j: int| 0 <= j < i ==> !occurs_at(s@, p@, j),
        decreases sv.len() - pv.len() + 1 - i,
    {
        if occurs_here(&sv, &pv, i) {
            return true;
        }
        i = i + 1;
    }
    false
}

/// The class of a failed exchange, read from its error text.
#[derive(Debug, Clone, Copy, PartialEq, Eq, Structural)]
pub enum ErrorKind {
    QuotaExceeded,
    InvalidCredentials,
    Transport,
}

pub open spec fn error_kind_of(msg: Seq<char>) -> ErrorKind {
    if occurs_in(msg, QUOTA_MARKER@) || occurs_in(msg, QUOTA_EXCEEDED_MARKER@) {
        ErrorKind::QuotaExceeded
    } else if occurs_in(msg, INVALID_KEY_MARKER@) || occurs_in(msg, INCORRECT_KEY_MARKER@) {
        ErrorKind::InvalidCredentials
    } else {
        ErrorKind::Transport
    }
}

/// Classifies an error text: quota markers first, then credential markers,
/// anything else is a transport failure.
pub fn classify_error(msg: &str) -> (r: ErrorKind)
    ensures
        r == error_kind_of(msg@),
{
    if occurs(msg, QUOTA_MARKER) || occurs(msg, QUOTA_EXCEEDED_MARKER) {
        ErrorKind::QuotaExceeded
    } else if occurs(msg, INVALID_KEY_MARKER) || occurs(msg, INCORRECT_KEY_MARKER) {
        ErrorKind::InvalidCredentials
    } else {
        ErrorKind::Transport
    }
}

/// A failed exchange: its class and its error text.
#[derive(Debug, Clone, PartialEq, Eq)]
pub struct ApiError {
    pub kind: ErrorKind,
    pub message: String,
}

impl ApiError {
    fn duplicate(&self) -> (r: ApiError)
        ensures
            r == *self,
    {
        ApiError { kind: self.kind, message: self.message.clone() }
    }
}

/// What a streamed exchange has received so far.
pub struct StreamState {
    pub text: Seq<char>,
    pub deltas: nat,
}

pub open spec fn min_nat(a: nat, b: nat) -> nat {
    if a <= b {
        a
    } else {
        b
    }
}

/// The contents that are present, in order.
pub open spec fn present_contents(contents: Seq<Option<String>>) -> Seq<Seq<char>>
    decreases contents.len(),
{
    if contents.len() == 0 {
        Seq::empty()
    } else {
        let prev = present_contents(contents.drop_last());
        match contents.last() {
            Some(c) => prev.push(c@),
            None => prev,
        }
    }
}

proof fn lemma_concat_all_push(ls: Seq<Seq<char>>, x: Seq<char>)
    ensures
        concat_all(ls.push(x)) == concat_all(ls) + x,
    decreases ls.len(),
{
    if ls.len() == 0 {
        assert(ls.push(x).drop_first() =~= Seq::<Seq<char>>::empty());
        assert(concat_all(Seq::<Seq<char>>::empty()) == Seq::<char>::empty());
        assert(x + Seq::<char>::empty() =~= x);
        assert(concat_all(ls) =~= Seq::<char>::empty());
        assert(Seq::<char>::empty() + x =~= x);
    } else {
        lemma_concat_all_push(ls.drop_first(), x);
        assert(ls.push(x).drop_first() =~= ls.drop_first().push(x));
        assert(ls.push(x)[0] == ls[0]);
        assert(ls[0] + (concat_all(ls.drop_first()) + x) =~= (ls[0] + concat_all(ls.drop_first()))
            + x);
    }
}

/// The text of one streamed exchange, built from its deltas in arrival order.
pub struct StreamAccumulator {
    text: String,
    deltas: usize,
}

/// A streamed exchange that broke off: its error text, and how much had
/// arrived (deltas, and UTF-8 bytes of text) when it did.
#[derive(Debug, Clone, PartialEq, Eq)]
pub struct TransportFailure {
    pub message: String,
    pub deltas: usize,
    pub received_bytes: usize,
}

impl View for StreamAccumulator {
    type V = StreamState;

    closed spec fn view(&self) -> StreamState {
        StreamState { text: self.text@, deltas: self.deltas as nat }
    }
}

impl StreamAccumulator {
    pub fn new() -> (r: StreamAccumulator)
        ensures
            r@.text == Seq::<char>::empty(),
            r@.deltas == 0,
    {
        StreamAccumulator { text: String::new(), deltas: 0 }
    }

    /// Appends one delta; the count of deltas stops at `usize::MAX`.
    pub fn push_delta(&mut self, delta: &str)
        ensures
            final(self)@.text == old(self)@.text + delta@,
            final(self)@.deltas == if old(self)@.deltas < usize::MAX {
                old(self)@.deltas + 1
            } else {
                old(self)@.deltas
            },
    {
        push_str(&mut self.text, delta);
        if self.deltas < usize::MAX {
            self.deltas = self.deltas + 1;
        }
    }

    /// Takes one streamed response, given as the content of each of its
    /// choices: every present content is appended as a delta, in order, and
    /// the list of them is returned for display.
    pub fn push_choices(&mut self, contents: Vec<Option<String>>) -> (shown: Vec<String>)
        ensures
            string_views(shown@) == present_contents(contents@),
            final(self)@.text == old(self)@.text + concat_all(present_contents(contents@)),
            final(self)@.deltas == min_nat(
                old(self)@.deltas + present_contents(contents@).len(),
                usize::MAX as nat,
            ),
    {
        let mut shown: Vec<String> = Vec::new();
        let mut i: usize = 0;
        while i < contents.len()
            invariant
                i <= contents.len(),
                string_views(shown@) == present_contents(contents@.subrange(0, i as int)),
                self@.text == old(self)@.text + concat_all(
                    present_contents(contents@.subrange(0, i as int)),
                ),
                self@.deltas == min_nat(
                    old(self)@.deltas + present_contents(contents@.subrange(0, i as int)).len(),
                    usize::MAX as nat,
                ),
            decreases contents.len() - i,
        {
            let ghost prefix = contents@.subrange(0, i as int);
            assert(contents@.subrange(0, i + 1).drop_last() =~= prefix);
            if let Some(c) = &contents[i] {
                let ghost before = self@.text;
                self.push_delta(c.as_str());
                shown.push(c.clone());
                proof {
                    lemma_concat_all_push(present_contents(prefix), c@);
                }
                assert(string_views(shown@) =~= present_contents(prefix).push(c@));
                assert(self@.text =~= old(self)@.text + concat_all(present_contents(prefix).push(c@)));
            }
            i = i + 1;
        }
        assert(contents@.subrange(0, i as int) =~= contents@);
        shown
    }

    /// The number of deltas received.
    pub fn deltas(&self) -> (r: usize)
        ensures
            r == self@.deltas,
    {
        self.deltas
    }

    /// The whole text, once the stream has signalled completion. It may be empty.
    pub fn finish(self) -> (r: String)
        ensures
            r@ == self@.text,
    {
        self.text
    }

    /// The failure of the exchange; the partial text is dropped.
    pub fn fail(self, message: String) -> (r: TransportFailure)
        ensures
            r.message == message,
            r.deltas == self@.deltas,
            r.received_bytes == encode_utf8(self@.text).len() as usize,
    {
        let received_bytes = self.text.as_str().len();
        TransportFailure { message, deltas: self.deltas, received_bytes }
    }
}

/// Which path a transcript takes.
#[derive(Debug, Clone, Copy, PartialEq, Eq, Structural)]
pub enum Route {
    /// Nothing to summarize; no exchange is made.
    Empty,
    /// The transcript fits the budget: one exchange.
    Short,
    /// The transcript is cut into chunks: one exchange per chunk, in order.
    Long,
}

pub open spec fn route_of(len: nat, limit: nat) -> Route {
    if len == 0 {
        Route::Empty
    } else if len <= limit {
        Route::Short
    } else {
        Route::Long
    }
}

/// The prompt of the single exchange: template, a space, transcript.
pub open spec fn short_prompt(template: Seq<char>, transcript: Seq<char>) -> Seq<char> {
    template + seq![' '] + transcript
}

/// The prompts of the chunked path: the template followed by each chunk.
pub open spec fn chunk_prompts(template: Seq<char>, cs: Seq<Seq<char>>) -> Seq<Seq<char>> {
    cs.map_values(|c: Seq<char>| template + c)
}

/// The prompts a run sends, in order.
pub open spec fn planned_prompts(template: Seq<char>, transcript: Seq<char>, limit: nat) -> Seq<
    Seq<char>,
> {
    match route_of(transcript.len(), limit) {
        Route::Empty => Seq::empty(),
        Route::Short => seq![short_prompt(template, transcript)],
        Route::Long => chunk_prompts(template, chunks(transcript, limit)),
    }
}

/// The state of a run: its path, its prompts, how many replies have come
/// back, their concatenation, and the failure that ended it, if any.
pub struct RunState {
    pub route: Route,
    pub prompts: Seq<Seq<char>>,
    pub next: nat,
    pub output: Seq<char>,
    pub failure: Option<ApiError>,
}

impl RunState {
    pub open spec fn wf(self) -> bool {
        &&& self.next <= self.prompts.len()
        &&& (self.route is Empty <==> self.prompts.len() == 0)
    }

    /// No more exchanges: every prompt has its reply, or one failed.
    pub open spec fn finished(self) -> bool {
        self.failure is Some || self.next >= self.prompts.len()
    }

    pub open spec fn fresh(route: Route, prompts: Seq<Seq<char>>) -> RunState {
        RunState { route, prompts, next: 0, output: Seq::empty(), failure: None }
    }
}

/// How a finished run ended.
#[derive(Debug, Clone, PartialEq, Eq)]
pub enum Outcome {
    /// The concatenated replies, not empty.
    Summary(String),
    /// The transcript was empty; no exchange was made.
    NoContent,
    /// Every exchange succeeded, but no text came back.
    EmptyResponse,
    /// An exchange failed; the exchanges after it were not made.
    Failed(ApiError),
}

/// `o` is how the finished run `s` ended.
pub open spec fn outcome_of(o: Outcome, s: RunState) -> bool {
    match o {
        Outcome::NoContent => s.route is Empty,
        Outcome::Failed(e) => s.route !is Empty && s.failure == Some(e),
        Outcome::EmptyResponse => s.route !is Empty && s.failure is None && s.output.len() == 0,
        Outcome::Summary(text) => s.route !is Empty && s.failure is None && s.output.len() > 0
            && text@ == s.output,
    }
}

/// The text a finished run hands back to be written out.
pub open spec fn result_text_of(s: RunState) -> Seq<char> {
    if s.route is Empty {
        NO_CONTENT_MESSAGE@
    } else if s.failure is Some {
        let e = s.failure->0;
        match e.kind {
            ErrorKind::QuotaExceeded => QUOTA_MESSAGE@,
            ErrorKind::InvalidCredentials => INVALID_KEY_MESSAGE@,
            ErrorKind::Transport => if s.route is Long {
                LONG_FAILURE_PREFIX@ + e.message@
            } else {
                SHORT_FAILURE_PREFIX@ + e.message@
            },
        }
    } else if s.output.len() == 0 {
        EMPTY_RESPONSE_MESSAGE@
    } else {
        s.output
    }
}

/// One summarization run over a transcript.
pub struct SummaryRun {
    route: Route,
    prompts: Vec<String>,
    next: usize,
    output: String,
    failure: Option<ApiError>,
}

impl View for SummaryRun {
    type V = RunState;

    closed spec fn view(&self) -> RunState {
        RunState {
            route: self.route,
            prompts: string_views(self.prompts@),
            next: self.next as nat,
            output: self.output@,
            failure: self.failure,
        }
    }
}

/// The route of a transcript for the budget `limit`, by its length in characters.
pub fn route(transcript: &str, limit: usize) -> (r: Route)
    ensures
        r == route_of(transcript@.len(), limit as nat),
{
    let n = chars_of(transcript).len();
    if n == 0 {
        Route::Empty
    } else if n <= limit {
        Route::Short
    } else {
        Route::Long
    }
}

impl SummaryRun {
    /// Plans a run. An empty transcript needs no template and no exchange;
    /// otherwise the selector must name a template of the catalog.
    pub fn start(catalog: &PromptCatalog, transcript: &str, selector: usize, limit: usize) -> (r:
        Result<SummaryRun, UnknownPromptError>)
        requires
            limit > 0,
        ensures
            route_of(transcript@.len(), limit as nat) is Empty ==> (r matches Ok(run) && run@
                == RunState::fresh(Route::Empty, Seq::empty())),
            route_of(transcript@.len(), limit as nat) !is Empty && selector >= catalog@.len()
                ==> r == Err::<SummaryRun, UnknownPromptError>(
                UnknownPromptError { selector, available: catalog@.len() as usize },
            ),
            route_of(transcript@.len(), limit as nat) !is Empty && selector < catalog@.len() ==> (
            r matches Ok(run) && run@ == RunState::fresh(
                route_of(transcript@.len(), limit as nat),
                planned_prompts(catalog@[selector as int], transcript@, limit as nat),
            )),
            r matches Ok(run) ==> run@.wf(),
    {
        let rt = route(transcript, limit);
        if let Route::Empty = rt {
            let run = SummaryRun {
                route: Route::Empty,
                prompts: Vec::new(),
                next: 0,
                output: String::new(),
                failure: None,
            };
            assert(string_views(run.prompts@) =~= Seq::<Seq<char>>::empty());
            assert(run@.output =~= Seq::<char>::empty());
            assert(run@ == RunState::fresh(Route::Empty, Seq::empty()));
            return Ok(run);
        }
        let template = match catalog.template(selector) {
            Ok(t) => t,
            Err(e) => {
                return Err(e);
            },
        };
        let mut prompts: Vec<String> = Vec::new();
        if let Route::Short = rt {
            let mut p = template;
            proof {
                reveal_strlit(" ");
            }
            push_str(&mut p, " ");
            push_str(&mut p, transcript);
            assert(p@ == short_prompt(catalog@[selector as int], transcript@));
            prompts.push(p);
            assert(string_views(prompts@)[0] == p@);
            assert(string_views(prompts@) =~= planned_prompts(
                catalog@[selector as int],
                transcript@,
                limit as nat,
            ));
        } else {
            let cs = plan_chunks(transcript, limit);
            let ghost want = chunk_prompts(template@, string_views(cs@));
            let mut i: usize = 0;
            while i < cs.len()
                invariant
                    i <= cs.len(),
                    want == chunk_prompts(template@, string_views(cs@)),
                    string_views(prompts@) == want.subrange(0, i as int),
                decreases cs.len() - i,
            {
                let mut p = template.clone();
                push_str(&mut p, cs[i].as_str());
                let ghost before = string_views(prompts@);
                assert(string_views(cs@)[i as int] == cs@[i as int]@);
                assert(p@ == want[i as int]);
                prompts.push(p);
                assert(string_views(prompts@) =~= before.push(p@));
                assert(string_views(prompts@) =~= want.subrange(0, i + 1));
                i = i + 1;
            }
            assert(string_views(prompts@) =~= want);
        }
        let run = SummaryRun { route: rt, prompts, next: 0, output: String::new(), failure: None };
        assert(run@.output =~= Seq::<char>::empty());
        Ok(run)
    }

    /// The path of the run.
    pub fn route(&self) -> (r: Route)
        ensures
            r == self@.route,
    {
        self.route
    }

    /// The number of exchanges the run plans.
    pub fn prompt_count(&self) -> (r: usize)
        ensures
            r == self@.prompts.len(),
    {
        self.prompts.len()
    }

    /// Whether the run has ended.
    pub fn is_finished(&self) -> (r: bool)
        ensures
            r == self@.finished(),
    {
        self.failure.is_some() || self.next >= self.prompts.len()
    }

    /// The prompt of the next exchange, or `None` once the run has ended.
    pub fn next_prompt(&self) -> (r: Option<String>)
        ensures
            self@.finished() ==> r is None,
            !self@.finished() ==> (r matches Some(p) && p@ == self@.prompts[self@.next as int]),
    {
        if self.failure.is_some() || self.next >= self.prompts.len() {
            None
        } else {
            let p = self.prompts[self.next].clone();
            assert(p@ == self@.prompts[self@.next as int]);
            Some(p)
        }
    }

    /// Records the reply to the pending exchange: a text is appended to the
    /// output; an error text is classified and ends the run.
    pub fn record_reply(&mut self, reply: Result<String, String>)
        requires
            old(self)@.wf(),
            !old(self)@.finished(),
        ensures
            final(self)@.wf(),
            final(self)@.route == old(self)@.route,
            final(self)@.prompts == old(self)@.prompts,
            reply matches Ok(text) ==> final(self)@.next == old(self)@.next + 1 && final(self)@.output
                == old(self)@.output + text@ && final(self)@.failure is None,
            reply matches Err(msg) ==> final(self)@.next == old(self)@.next && final(self)@.output
                == old(self)@.output && final(self)@.failure == Some(
                ApiError { kind: error_kind_of(msg@), message: msg },
            ),
    {
        match reply {
            Ok(text) => {
                assert(self.next < self.prompts.len());
                push_str(&mut self.output, text.as_str());
                self.next = self.next + 1;
            },
            Err(msg) => {
                let kind = classify_error(msg.as_str());
                self.failure = Some(ApiError { kind, message: msg });
            },
        }
    }

    /// How the run ended, or `None` while it is still going.
    pub fn outcome(&self) -> (r: Option<Outcome>)
        requires
            self@.wf(),
        ensures
            !self@.finished() ==> r is None,
            self@.finished() ==> (r matches Some(o) && outcome_of(o, self@)),
    {
        if !(self.failure.is_some() || self.next >= self.prompts.len()) {
            return None;
        }
        if let Route::Empty = self.route {
            return Some(Outcome::NoContent);
        }
        match &self.failure {
            Some(e) => Some(Outcome::Failed(e.duplicate())),
            None => {
                if self.output.as_str().is_empty() {
                    Some(Outcome::EmptyResponse)
                } else {
                    Some(Outcome::Summary(self.output.clone()))
                }
            },
        }
    }

    /// The text a finished run hands back, or `None` while it is still going.
    pub fn result_text(&self) -> (r: Option<String>)
        requires
            self@.wf(),
        ensures
            !self@.finished() ==> r is None,
            self@.finished() ==> (r matches Some(t) && t@ == result_text_of(self@)),
    {
        if !(self.failure.is_some() || self.next >= self.prompts.len()) {
            return None;
        }
        if let Route::Empty = self.route {
            return Some(NO_CONTENT_MESSAGE.to_owned());
        }
        match &self.failure {
            Some(e) => {
                match e.kind {
                    ErrorKind::QuotaExceeded => Some(QUOTA_MESSAGE.to_owned()),
                    ErrorKind::InvalidCredentials => Some(INVALID_KEY_MESSAGE.to_owned()),
                    ErrorKind::Transport => {
                        let mut t = if let Route::Long = self.route {
                            LONG_FAILURE_PREFIX.to_owned()
                        } else {
                            SHORT_FAILURE_PREFIX.to_owned()
                        };
                        push_str(&mut t, e.message.as_str());
                        Some(t)
                    },
                }
            },
            None => {
                if self.output.as_str().is_empty() {
                    Some(EMPTY_RESPONSE_MESSAGE.to_owned())
                } else {
                    Some(self.output.clone())
                }
            },
        }
    }
}

} // verus!
