//! The task assembler and formatter: a whole task line, parsed from text
//! or built through a builder, and rendered back to its canonical textual
//! form.
//!
//! The assembler runs the token grammars strictly in sequence — state,
//! priority, date compound, description — and commits each optional token
//! only when it is followed by one whitespace byte (which is then
//! consumed) or the end of the input; otherwise the whole token attempt is
//! rolled back as if it had not matched.  The description is the only
//! mandatory part; its failure is the only failure of a task parse.

use vstd::prelude::*;
use vstd::utf8::encode_utf8;
use vstd::utf8::is_leading_byte_width_1;
use vstd::utf8::length_of_first_scalar;
use vstd::utf8::pop_first_scalar;
use vstd::utf8::valid_first_scalar;
use vstd::utf8::valid_utf8;
use vstd::string::StringSliceAdditionalSpecFns;

use crate::date::DateCompound;
use crate::date::spec_format_date;
use crate::date::spec_format_datecompound;
use crate::date::spec_parse_date;
use crate::date::spec_parse_datecompound;
use crate::description::Description;
use crate::description::spec_parse_description;
use crate::description::string_from_utf8;
use crate::parse::Parser;
use crate::parse::is_ws;
use crate::parse::scan_to;
use crate::priority::Priority;
use crate::priority::spec_parse_priority;
use crate::state::State;
use crate::state::spec_parse_state;

verus! {

/// A task at the specification level: its state, its optional priority
/// and dates, and the UTF-8 bytes of its description text.
pub struct TaskView {
    /// State of the task.
    pub state: State,
    /// Optional priority of the task.
    pub priority: Option<Priority>,
    /// Optional dates of the task.
    pub date_compound: Option<DateCompound>,
    /// The UTF-8 bytes of the description text.
    pub description: Seq<u8>,
}

impl TaskView {
    /// Every date the task carries names an existing calendar day.
    pub open spec fn wf(self) -> bool {
        match self.date_compound {
            Some(dc) => dc.wf(),
            None => true,
        }
    }

    /// Every date the task carries can be rendered in the fixed-width
    /// date format.
    pub open spec fn displayable(self) -> bool {
        match self.date_compound {
            Some(dc) => dc.displayable(),
            None => true,
        }
    }
}

/// Represents the whole task.
#[derive(Debug, Clone, PartialEq, Eq)]
pub struct Task {
    /// State of the task.
    pub state: State,
    /// Optional priority of the task.
    pub priority: Option<Priority>,
    /// Optional associated special dates for the task.
    pub date_compound: Option<DateCompound>,
    /// Description of the task.
    pub description: Description,
}

impl View for Task {
    type V = TaskView;

    open spec fn view(&self) -> TaskView {
        TaskView {
            state: self.state,
            priority: self.priority,
            date_compound: self.date_compound,
            description: self.description.bytes(),
        }
    }
}

/// Failure of a task parse: the mandatory description could not be parsed
/// (the input was exhausted, or the rest of the line is not valid UTF-8).
#[derive(Debug, Clone, Copy, PartialEq, Eq, Structural, Hash)]
pub struct ParseTaskError;

/// The commit step shared by every optional token of the task grammar: a
/// parsed token is committed only when it is followed by the end of the
/// input or by one whitespace byte, which is then consumed; otherwise the
/// token attempt is discarded.
pub open spec fn commit_token<T>(b: Seq<u8>, parsed: Option<(T, int)>) -> Option<(T, int)> {
    match parsed {
        None => None,
        Some((v, j)) => {
            if j >= b.len() {
                Some((v, j))
            } else if is_ws(b[j]) {
                Some((v, j + 1))
            } else {
                None
            }
        },
    }
}

/// The task grammar at position `i` of `b`: an optional committed state
/// token, an optional committed priority token, an optional committed
/// date-compound token, in this order, then the mandatory description.
pub open spec fn spec_parse_task(b: Seq<u8>, i: int) -> Option<(TaskView, int)> {
    let st = commit_token(b, spec_parse_state(b, i));
    let state = match st {
        Some((v, j)) => v,
        None => State::Open,
    };
    let i1 = match st {
        Some((v, j)) => j,
        None => i,
    };
    let pr = commit_token(b, spec_parse_priority(b, i1));
    let priority = match pr {
        Some((v, j)) => Some(v),
        None => None,
    };
    let i2 = match pr {
        Some((v, j)) => j,
        None => i1,
    };
    let dc = commit_token(b, spec_parse_datecompound(b, i2));
    let date_compound = match dc {
        Some((v, j)) => Some(v),
        None => None,
    };
    let i3 = match dc {
        Some((v, j)) => j,
        None => i2,
    };
    match spec_parse_description(b, i3) {
        Some((db, j)) => Some(
            (TaskView { state, priority, date_compound, description: db }, j),
        ),
        None => None,
    }
}

impl Task {
    /// Creates a new builder for a task.
    pub fn build() -> (r: TaskBuilder)
        ensures
            r.state is None,
            r.priority is None,
            r.date_compound is None,
    {
        TaskBuilder::new()
    }

    /// Returns the state of the task.
    pub fn state(&self) -> (r: &State)
        ensures
            *r == self.state,
    {
        &self.state
    }

    /// Returns the priority of the task.
    pub fn priority(&self) -> (r: Option<&Priority>)
        ensures
            match self.priority {
                Some(p) => r == Some(&p),
                None => r is None,
            },
    {
        self.priority.as_ref()
    }

    /// Returns the date compound of the task.
    pub fn date_compound(&self) -> (r: Option<&DateCompound>)
        ensures
            match self.date_compound {
                Some(dc) => r == Some(&dc),
                None => r is None,
            },
    {
        self.date_compound.as_ref()
    }

    /// Returns the description of the task.
    pub fn description(&self) -> (r: &Description)
        ensures
            *r == self.description,
    {
        &self.description
    }

    /// Parses the task at the parser's position: state, priority and
    /// dates, each optional and committed only at a word boundary, then
    /// the mandatory description up to the end of the line.
    pub fn parse(parser: &mut Parser<'_>) -> (r: Result<Self, ParseTaskError>)
        requires
            old(parser).wf(),
            old(parser).data().len() <= u32::MAX,
        ensures
            final(parser).wf(),
            final(parser).data() == old(parser).data(),
            match spec_parse_task(old(parser).data(), old(parser).pos()) {
                Some((tv, j)) => (r matches Ok(t) && t@ == tv && t@.wf()) && final(parser).pos()
                    == j,
                None => r == Err::<Task, ParseTaskError>(ParseTaskError) && old(parser).pos()
                    <= final(parser).pos() <= old(parser).data().len(),
            },
    {
        let ghost b = parser.data();
        let ghost i = parser.pos();

        let state_opt = {
            let mut p_copy = *parser;
            match State::parse_opt(&mut p_copy) {
                Some(v) => {
                    let committed = if p_copy.is_eof() {
                        true
                    } else {
                        p_copy.expect_whitespace().is_some()
                    };
                    if committed {
                        *parser = p_copy;
                        Some(v)
                    } else {
                        None
                    }
                },
                None => None,
            }
        };
        let state = match state_opt {
            Some(s) => s,
            None => State::Open,
        };

        let priority = {
            let mut p_copy = *parser;
            match Priority::parse_opt(&mut p_copy) {
                Some(v) => {
                    let committed = if p_copy.is_eof() {
                        true
                    } else {
                        p_copy.expect_whitespace().is_some()
                    };
                    if committed {
                        *parser = p_copy;
                        Some(v)
                    } else {
                        None
                    }
                },
                None => None,
            }
        };

        let date_compound = {
            let mut p_copy = *parser;
            match DateCompound::parse_opt(&mut p_copy) {
                Some(v) => {
                    let committed = if p_copy.is_eof() {
                        true
                    } else {
                        p_copy.expect_whitespace().is_some()
                    };
                    if committed {
                        *parser = p_copy;
                        Some(v)
                    } else {
                        None
                    }
                },
                None => None,
            }
        };

        let description = match Description::parse(parser) {
            Ok(d) => d,
            Err(_) => {
                return Err(ParseTaskError);
            },
        };

        Ok(Task { state, priority, date_compound, description })
    }

    /// Attempts [`Task::parse`] and restores the parser verbatim on
    /// failure: the universal try/rollback protocol, at the task level.
    pub fn parse_opt(parser: &mut Parser<'_>) -> (r: Option<Self>)
        requires
            old(parser).wf(),
            old(parser).data().len() <= u32::MAX,
        ensures
            final(parser).wf(),
            final(parser).data() == old(parser).data(),
            match spec_parse_task(old(parser).data(), old(parser).pos()) {
                Some((tv, j)) => (r matches Some(t) && t@ == tv && t@.wf()) && final(parser).pos()
                    == j,
                None => r is None && final(parser).pos() == old(parser).pos(),
            },
    {
        let parser_pre = *parser;
        match Self::parse(parser) {
            Err(_) => {
                *parser = parser_pre;
                None
            },
            Ok(x) => Some(x),
        }
    }
}

impl core::str::FromStr for Task {
    type Err = ParseTaskError;

    /// Parses one task line from a string.
    fn from_str(s: &str) -> Result<Self, Self::Err> {
        let bytes = s.as_bytes();
        if bytes.len() > u32::MAX as usize {
            return Err(ParseTaskError);
        }
        let mut parser = Parser::new(bytes);
        Task::parse(&mut parser)
    }
}

/// The rendering of the state: the `x` marker and its separating space
/// for a done task, nothing for an open one.
pub open spec fn spec_state_prefix(s: State) -> Seq<u8> {
    match s {
        State::Done => seq![0x78u8, 0x20u8],
        State::Open => Seq::empty(),
    }
}

/// The rendering of the optional priority: `(X)` and its separating
/// space, or nothing.
pub open spec fn spec_priority_prefix(p: Option<Priority>) -> Seq<u8> {
    match p {
        Some(p) => seq![0x28u8, p.spec_byte(), 0x29u8, 0x20u8],
        None => Seq::empty(),
    }
}

/// The rendering of the optional dates and their separating space, or
/// nothing.
pub open spec fn spec_dates_prefix(dc: Option<DateCompound>) -> Seq<u8> {
    match dc {
        Some(d) => spec_format_datecompound(d) + seq![0x20u8],
        None => Seq::empty(),
    }
}

/// The canonical rendering of a task: the present fields in fixed order —
/// state if done, priority if present, dates if present — each followed
/// by one space, then the description text verbatim.
pub open spec fn spec_format_task(tv: TaskView) -> Seq<u8> {
    spec_state_prefix(tv.state) + spec_priority_prefix(tv.priority) + spec_dates_prefix(
        tv.date_compound,
    ) + tv.description
}

/// A sequence of ASCII bytes is valid UTF-8.
pub proof fn lemma_ascii_valid_utf8(s: Seq<u8>)
    requires
        forall|k: int| 0 <= k < s.len() ==> #[trigger] s[k] < 0x80,
    ensures
        valid_utf8(s),
    decreases s.len(),
{
    if s.len() > 0 {
        assert(is_leading_byte_width_1(s[0]));
        assert(valid_first_scalar(s));
        assert(length_of_first_scalar(s) == 1);
        assert(pop_first_scalar(s) =~= s.subrange(1, s.len() as int));
        lemma_ascii_valid_utf8(s.subrange(1, s.len() as int));
    }
}

impl Task {
    /// Renders the task to its canonical byte form.
    pub fn format_bytes(&self) -> (r: Vec<u8>)
        requires
            self@.displayable(),
        ensures
            r@ == spec_format_task(self@),
    {
        let mut out: Vec<u8> = Vec::new();

        match self.state {
            State::Done => {
                out.push(0x78);
                out.push(0x20);
            },
            State::Open => {},
        }

        match &self.priority {
            Some(p) => {
                out.push(0x28);
                out.push(p.byte());
                out.push(0x29);
                out.push(0x20);
            },
            None => {},
        }

        match &self.date_compound {
            Some(dc) => {
                dc.write_bytes(&mut out);
                out.push(0x20);
            },
            None => {},
        }

        let mut tail = vstd::slice::slice_to_vec(self.description.description().as_bytes());
        out.append(&mut tail);
        proof {
            assert(out@ =~= spec_format_task(self@));
        }
        out
    }

    /// Renders the task to its canonical textual form.
    pub fn to_string(&self) -> (r: String)
        requires
            self@.displayable(),
        ensures
            encode_utf8(r@) == spec_format_task(self@),
    {
        let bytes = self.format_bytes();
        proof {
            let prefix = spec_state_prefix(self@.state) + spec_priority_prefix(self@.priority)
                + spec_dates_prefix(self@.date_compound);
            lemma_ascii_valid_utf8(prefix);
            vstd::utf8::encode_utf8_valid_utf8(self.description.text());
            vstd::utf8::valid_utf8_concat(prefix, self@.description);
            assert(bytes@ == prefix + self@.description);
        }
        match string_from_utf8(bytes) {
            Some(s) => {
                proof {
                    vstd::utf8::decode_utf8_encode_utf8(spec_format_task(self@));
                }
                s
            },
            None => vstd::pervasive::unreached(),
        }
    }
}

/// A builder for a task: fills the optional fields incrementally and
/// finally attaches a description.
///
/// All components implement `Copy`, so a builder can be used to build
/// multiple tasks without being consumed.
#[derive(Debug, Clone, Copy, PartialEq, Eq, Structural, Hash)]
pub struct TaskBuilder {
    /// The state the task will have, when set.
    pub state: Option<State>,
    /// The priority the task will have, when set.
    pub priority: Option<Priority>,
    /// The dates the task will have, when set.
    pub date_compound: Option<DateCompound>,
}

impl Default for TaskBuilder {
    /// A builder with no field set.
    fn default() -> (r: Self)
        ensures
            r.state is None,
            r.priority is None,
            r.date_compound is None,
    {
        TaskBuilder::new()
    }
}

impl TaskBuilder {
    /// Creates a new instance of the builder, with no field set.
    pub fn new() -> (r: Self)
        ensures
            r.state is None,
            r.priority is None,
            r.date_compound is None,
    {
        TaskBuilder { state: None, priority: None, date_compound: None }
    }

    /// Sets the state for the task.
    pub fn state(self, state: State) -> (r: Self)
        ensures
            r == (TaskBuilder { state: Some(state), ..self }),
    {
        TaskBuilder { state: Some(state), ..self }
    }

    /// Sets the priority for the task.
    pub fn priority(self, priority: Priority) -> (r: Self)
        ensures
            r == (TaskBuilder { priority: Some(priority), ..self }),
    {
        TaskBuilder { priority: Some(priority), ..self }
    }

    /// Sets the date compound for the task.
    pub fn date_compound(self, date_compound: DateCompound) -> (r: Self)
        ensures
            r == (TaskBuilder { date_compound: Some(date_compound), ..self }),
    {
        TaskBuilder { date_compound: Some(date_compound), ..self }
    }

    /// Creates a task from the builder; an unset state defaults to open.
    pub fn build(self, description: &str) -> (r: Task)
        requires
            description.spec_bytes().len() <= u32::MAX,
        ensures
            r.state == (match self.state {
                Some(s) => s,
                None => State::Open,
            }),
            r.priority == self.priority,
            r.date_compound == self.date_compound,
            r.description.text() == description@,
            r@.description == description.spec_bytes(),
    {
        Task {
            state: match self.state {
                Some(s) => s,
                None => State::Open,
            },
            priority: self.priority,
            date_compound: self.date_compound,
            description: Description::new(description),
        }
    }
}

/// True when a full date token stands at position `i` of `b` and is
/// followed by whitespace or the end of the input: the situation in which
/// the date-compound grammar would consume it as a second date.
pub open spec fn date_token_with_boundary(b: Seq<u8>, i: int) -> bool {
    match spec_parse_date(b, i) {
        Some((d, j)) => j >= b.len() || is_ws(b[j]),
        None => false,
    }
}

/// Committing a state token behaves the same on a suffix as on the whole
/// buffer.
proof fn lemma_commit_state_shift(b: Seq<u8>, i: int, d: Seq<u8>)
    requires
        0 <= i <= b.len(),
        d == b.subrange(i, b.len() as int),
    ensures
        commit_token(d, spec_parse_state(d, 0)) is None <==> commit_token(
            b,
            spec_parse_state(b, i),
        ) is None,
{
    assert forall|k: int| 0 <= k < d.len() implies d[k] == b[i + k] by {
        assert(b.subrange(i, b.len() as int)[k] == b[i + k]);
    }
}

/// Committing a priority token behaves the same on a suffix as on the
/// whole buffer.
proof fn lemma_commit_priority_shift(b: Seq<u8>, i: int, d: Seq<u8>)
    requires
        0 <= i <= b.len(),
        d == b.subrange(i, b.len() as int),
    ensures
        commit_token(d, spec_parse_priority(d, 0)) is None <==> commit_token(
            b,
            spec_parse_priority(b, i),
        ) is None,
{
    assert forall|k: int| 0 <= k < d.len() implies d[k] == b[i + k] by {
        assert(b.subrange(i, b.len() as int)[k] == b[i + k]);
    }
}

/// Parsing a date token behaves the same on a suffix as on the whole
/// buffer.
proof fn lemma_parse_date_shift(b: Seq<u8>, i: int, d: Seq<u8>)
    requires
        0 <= i <= b.len(),
        d == b.subrange(i, b.len() as int),
    ensures
        match spec_parse_date(d, 0) {
            Some((v, j)) => spec_parse_date(b, i) == Some((v, i + 10)) && j == 10,
            None => spec_parse_date(b, i) is None,
        },
{
    assert forall|k: int| 0 <= k < d.len() implies d[k] == b[i + k] by {
        assert(b.subrange(i, b.len() as int)[k] == b[i + k]);
    }
    assert(d.len() == b.len() - i);
    if crate::date::date_shape_at(d, 0) {
        assert(crate::date::date_shape_at(b, i));
        assert(crate::date::year_at(b, i) == crate::date::year_at(d, 0));
    } else {
        assert(!crate::date::date_shape_at(b, i));
    }
}

/// Committing a date-compound token behaves the same on a suffix as on
/// the whole buffer.
proof fn lemma_commit_dc_shift(b: Seq<u8>, i: int, d: Seq<u8>)
    requires
        0 <= i <= b.len(),
        d == b.subrange(i, b.len() as int),
    ensures
        commit_token(d, spec_parse_datecompound(d, 0)) is None <==> commit_token(
            b,
            spec_parse_datecompound(b, i),
        ) is None,
{
    assert forall|k: int| 0 <= k < d.len() implies d[k] == b[i + k] by {
        assert(b.subrange(i, b.len() as int)[k] == b[i + k]);
    }
    lemma_parse_date_shift(b, i, d);
    match spec_parse_date(d, 0) {
        None => {},
        Some((d1, j1)) => {
            if j1 < d.len() && is_ws(d[j1]) {
                let d2 = d.subrange(11, d.len() as int);
                assert(d2 =~= b.subrange(i + 11, b.len() as int));
                lemma_parse_date_shift(b, i + 11, d2);
                assert forall|k: int| 0 <= k < d2.len() implies d2[k] == d[11 + k] by {
                    assert(d.subrange(11, d.len() as int)[k] == d[11 + k]);
                }
                match spec_parse_date(d2, 0) {
                    None => {
                        assert(spec_parse_date(d, 11) is None);
                    },
                    Some((v2, j2)) => {
                        assert(spec_parse_date(d, 11) == Some((v2, 21int)));
                        assert(spec_parse_date(b, i + 11) == Some((v2, i + 21)));
                    },
                }
            }
        },
    }
}

/// All the conditions under which a task's canonical rendering parses
/// back unambiguously (see [`lemma_task_round_trip`]).
pub open spec fn round_trip_ok(tv: TaskView) -> bool {
    &&& tv.wf()
    &&& tv.displayable()
    &&& tv.description.len() > 0
    &&& valid_utf8(tv.description)
    &&& (forall|k: int| 0 <= k < tv.description.len() ==> #[trigger] tv.description[k] != 0x0a)
    &&& (tv.state == State::Open ==> commit_token(
        tv.description,
        spec_parse_state(tv.description, 0),
    ) is None)
    &&& (tv.priority is None ==> commit_token(
        tv.description,
        spec_parse_priority(tv.description, 0),
    ) is None)
    &&& (tv.date_compound is None ==> commit_token(
        tv.description,
        spec_parse_datecompound(tv.description, 0),
    ) is None)
    &&& ((tv.date_compound matches Some(DateCompound::Created { .. }))
        ==> !date_token_with_boundary(tv.description, 0))
}

/// The offset of the priority token within a task's rendering.
pub open spec fn rt_i1(tv: TaskView) -> int {
    spec_state_prefix(tv.state).len() as int
}

/// The offset of the date compound within a task's rendering.
pub open spec fn rt_i2(tv: TaskView) -> int {
    rt_i1(tv) + spec_priority_prefix(tv.priority).len()
}

/// The offset of the description within a task's rendering.
pub open spec fn rt_i3(tv: TaskView) -> int {
    rt_i2(tv) + spec_dates_prefix(tv.date_compound).len()
}

/// The bytes of a task's rendering, region by region.
proof fn lemma_rt_layout(tv: TaskView)
    ensures
        spec_format_task(tv).len() == rt_i3(tv) + tv.description.len(),
        forall|k: int|
            0 <= k < spec_state_prefix(tv.state).len() ==> #[trigger] spec_format_task(tv)[k]
                == spec_state_prefix(tv.state)[k],
        forall|k: int|
            0 <= k < spec_priority_prefix(tv.priority).len() ==> #[trigger] spec_format_task(
                tv,
            )[rt_i1(tv) + k] == spec_priority_prefix(tv.priority)[k],
        forall|k: int|
            0 <= k < spec_dates_prefix(tv.date_compound).len() ==> #[trigger] spec_format_task(
                tv,
            )[rt_i2(tv) + k] == spec_dates_prefix(tv.date_compound)[k],
        forall|k: int|
            0 <= k < tv.description.len() ==> #[trigger] spec_format_task(tv)[rt_i3(tv) + k]
                == tv.description[k],
        tv.description =~= spec_format_task(tv).subrange(
            rt_i3(tv),
            spec_format_task(tv).len() as int,
        ),
{
}

/// The state step of the round trip.
proof fn lemma_rt_state(tv: TaskView)
    requires
        round_trip_ok(tv),
    ensures
        commit_token(spec_format_task(tv), spec_parse_state(spec_format_task(tv), 0)) == (
        match tv.state {
            State::Done => Some((State::Done, 2int)),
            State::Open => None::<(State, int)>,
        }),
{
    let b = spec_format_task(tv);
    lemma_rt_layout(tv);
    match tv.state {
        State::Done => {
            assert(b[0] == 0x78);
            assert(b[1] == 0x20);
            assert(spec_parse_state(b, 0) == Some((State::Done, 1int)));
        },
        State::Open => {
            if tv.priority is Some {
                assert(b[0] == 0x28);
                assert(spec_parse_state(b, 0) is None);
            } else if tv.date_compound is Some {
                assert(crate::parse::is_digit(b[0]));
                assert(spec_parse_state(b, 0) is None);
            } else {
                assert(tv.description == b.subrange(0, b.len() as int));
                lemma_commit_state_shift(b, 0, tv.description);
            }
        },
    }
}

/// The priority step of the round trip.
proof fn lemma_rt_priority(tv: TaskView)
    requires
        round_trip_ok(tv),
    ensures
        commit_token(spec_format_task(tv), spec_parse_priority(spec_format_task(tv), rt_i1(tv)))
            == (match tv.priority {
            Some(p) => Some((p, rt_i1(tv) + 4)),
            None => None::<(Priority, int)>,
        }),
{
    let b = spec_format_task(tv);
    let i1 = rt_i1(tv);
    lemma_rt_layout(tv);
    match tv.priority {
        Some(p) => {
            assert(0 <= p.spec_code() <= 25);
            assert(b[i1] == 0x28);
            assert(b[i1 + 1] == p.spec_byte());
            assert(crate::parse::is_upper(p.spec_byte()));
            assert(b[i1 + 2] == 0x29);
            assert(b[i1 + 3] == 0x20);
            crate::priority::lemma_priority_byte(p.spec_byte(), p);
            assert(spec_parse_priority(b, i1) == Some((p, i1 + 3)));
        },
        None => {
            if tv.date_compound is Some {
                assert(crate::parse::is_digit(b[i1]));
                assert(spec_parse_priority(b, i1) is None);
            } else {
                assert(i1 == rt_i3(tv));
                assert(tv.description == b.subrange(i1, b.len() as int));
                lemma_commit_priority_shift(b, i1, tv.description);
            }
        },
    }
}

/// The date-compound step of the round trip.
#[verifier::rlimit(100)]
#[verifier::spinoff_prover]
proof fn lemma_rt_dates(tv: TaskView)
    requires
        round_trip_ok(tv),
    ensures
        commit_token(
            spec_format_task(tv),
            spec_parse_datecompound(spec_format_task(tv), rt_i2(tv)),
        ) == (match tv.date_compound {
            Some(dc) => Some((dc, rt_i3(tv))),
            None => None::<(DateCompound, int)>,
        }),
{
    let b = spec_format_task(tv);
    let i2 = rt_i2(tv);
    let i3 = rt_i3(tv);
    let desc = tv.description;
    lemma_rt_layout(tv);
    match tv.date_compound {
        Some(dc) => {
            match dc {
                DateCompound::Created { created } => {
                    assert(b.subrange(i2, i2 + 10) =~= spec_format_date(created));
                    crate::date::lemma_format_date_parses(b, i2, created);
                    assert(b[i2 + 10] == 0x20);
                    assert(desc == b.subrange(i3, b.len() as int));
                    lemma_parse_date_shift(b, i3, desc);
                    match spec_parse_date(desc, 0) {
                        None => {
                            assert(spec_parse_date(b, i2 + 11) is None);
                        },
                        Some((d2, j2)) => {
                            assert(spec_parse_date(b, i2 + 11) == Some((d2, i3 + 10)));
                            assert(!(10 >= desc.len() || is_ws(desc[10])));
                            assert(b[i3 + 10] == desc[10]);
                            assert(!is_ws(b[i3 + 10]));
                        },
                    }
                    assert(spec_parse_datecompound(b, i2) == Some(
                        (DateCompound::Created { created }, i2 + 10),
                    ));
                },
                DateCompound::Completed { created, completed } => {
                    assert(b.subrange(i2, i2 + 10) =~= spec_format_date(completed));
                    crate::date::lemma_format_date_parses(b, i2, completed);
                    assert(b[i2 + 10] == 0x20);
                    assert(b.subrange(i2 + 11, i2 + 21) =~= spec_format_date(created));
                    crate::date::lemma_format_date_parses(b, i2 + 11, created);
                    assert(b[i2 + 21] == 0x20);
                    assert(spec_parse_datecompound(b, i2) == Some(
                        (DateCompound::Completed { created, completed }, i2 + 21),
                    ));
                },
            }
        },
        None => {
            assert(i2 == i3);
            assert(desc == b.subrange(i2, b.len() as int));
            lemma_commit_dc_shift(b, i2, desc);
        },
    }
}

/// The description step of the round trip.
proof fn lemma_rt_description(tv: TaskView)
    requires
        round_trip_ok(tv),
    ensures
        spec_parse_description(spec_format_task(tv), rt_i3(tv)) == Some(
            (tv.description, spec_format_task(tv).len() as int),
        ),
{
    let b = spec_format_task(tv);
    let i3 = rt_i3(tv);
    let len = b.len() as int;
    lemma_rt_layout(tv);
    assert(i3 < len);
    crate::parse::lemma_scan_to_exact(b, i3, len, 0x0a);
    assert(scan_to(b, i3, 0x0a) == len);
    assert(b.subrange(i3, len) == tv.description);
}

/// Round trip: parsing the canonical rendering of a task yields exactly
/// the task back, consuming the whole input.
///
/// The conditions ([`round_trip_ok`]) delimit when the rendering is
/// unambiguous: the dates must be renderable in the fixed-width format,
/// the description must be non-empty, valid UTF-8 and free of line feeds,
/// and a field the task does not carry must not reappear as a parsable
/// token at the start of the description text (e.g. a description
/// starting with `(A) ` on a task without a priority).
pub proof fn lemma_task_round_trip(tv: TaskView)
    requires
        round_trip_ok(tv),
    ensures
        spec_parse_task(spec_format_task(tv), 0) == Some((tv, spec_format_task(tv).len() as int)),
{
    let b = spec_format_task(tv);
    lemma_rt_state(tv);
    lemma_rt_priority(tv);
    lemma_rt_dates(tv);
    lemma_rt_description(tv);
    let st = commit_token(b, spec_parse_state(b, 0));
    match tv.state {
        State::Done => {
            assert(st == Some((State::Done, 2int)));
            assert(rt_i1(tv) == 2);
        },
        State::Open => {
            assert(st is None);
            assert(rt_i1(tv) == 0);
        },
    }
    let pr = commit_token(b, spec_parse_priority(b, rt_i1(tv)));
    match tv.priority {
        Some(p) => {
            assert(pr == Some((p, rt_i1(tv) + 4)));
            assert(rt_i2(tv) == rt_i1(tv) + 4);
        },
        None => {
            assert(pr is None);
            assert(rt_i2(tv) == rt_i1(tv));
        },
    }
    let dc = commit_token(b, spec_parse_datecompound(b, rt_i2(tv)));
    match tv.date_compound {
        Some(d) => {
            assert(dc == Some((d, rt_i3(tv))));
        },
        None => {
            assert(dc is None);
            assert(rt_i3(tv) == rt_i2(tv));
        },
    }
    assert(spec_parse_task(b, 0) == Some((tv, b.len() as int)));
}

/// Default state: a line that does not begin with the `x` marker parses
/// to an open task.
pub proof fn lemma_default_state(b: Seq<u8>, tv: TaskView, j: int)
    requires
        spec_parse_task(b, 0) == Some((tv, j)),
        !(b.len() > 0 && b[0] == 0x78),
    ensures
        tv.state == State::Open,
{
}

/// State rendering: a done task renders as the `x` marker, a space, and
/// the rendering of the same task with the marker removed; an open task
/// renders with no state token at all.
pub proof fn lemma_state_rendering(tv: TaskView)
    ensures
        spec_format_task(TaskView { state: State::Done, ..tv }) == seq![0x78u8, 0x20u8]
            + spec_format_task(TaskView { state: State::Open, ..tv }),
        tv.state == State::Open ==> spec_format_task(tv) == spec_priority_prefix(tv.priority)
            + spec_dates_prefix(tv.date_compound) + tv.description,
{
    assert(spec_format_task(TaskView { state: State::Done, ..tv }) =~= seq![0x78u8, 0x20u8]
        + spec_format_task(TaskView { state: State::Open, ..tv }));
    if tv.state == State::Open {
        assert(spec_format_task(tv) =~= spec_priority_prefix(tv.priority) + spec_dates_prefix(
            tv.date_compound,
        ) + tv.description);
    }
}

} // verus!
