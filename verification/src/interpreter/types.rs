use itertools::Itertools;
use vstd::prelude::*;
use vstd::string::StrSliceExecFns;

use crate::parser::types::{JumpType, MoveDirection, Token, UpdateType};

verus! {

broadcast use vstd::string::group_string_axioms;

/// The identity of a timeline.
pub type ID = usize;

/// Hands out timeline identities, each once.
#[derive(Debug)]
pub struct IdGen {
    pub next: ID,
}

impl IdGen {
    pub fn new() -> (r: IdGen)
        ensures
            r.next == 0,
    {
        IdGen { next: 0 }
    }

    /// The next identity.
    pub fn fresh(&mut self) -> (r: ID)
        requires
            old(self).next < usize::MAX,
        ensures
            r == old(self).next,
            final(self).next == old(self).next + 1,
    {
        let id = self.next;
        self.next = id + 1;
        id
    }
}

/// One timeline: a tape of cells that runs both ways from cell 0, the
/// pointers into it, and the position of the next instruction.
#[derive(Debug, Clone, PartialEq)]
pub struct Timeline {
    pub id: ID,
    /// Cells 0, 1, 2, ... as far as they have been touched.
    pub data: Vec<u8>,
    /// Cells -1, -2, -3, ... as far as they have been touched.
    pub data_backwards: Vec<u8>,
    pub pointers: Vec<isize>,
    pub instruction_pointer: usize,
}

/// The mathematical value of a [`Timeline`].
pub struct TimelineView {
    pub id: ID,
    pub data: Seq<u8>,
    pub data_backwards: Seq<u8>,
    pub pointers: Seq<isize>,
    pub instruction_pointer: usize,
}

impl View for Timeline {
    type V = TimelineView;

    open spec fn view(&self) -> TimelineView {
        TimelineView {
            id: self.id,
            data: self.data@,
            data_backwards: self.data_backwards@,
            pointers: self.pointers@,
            instruction_pointer: self.instruction_pointer,
        }
    }
}

/// What a timeline asks of the set of timelines after a step.
#[derive(Debug, Clone, Copy, PartialEq, Eq, Structural)]
pub enum Command {
    /// Nothing to do.
    Nothing,
    /// Hand all pointers of timeline `id` to the timeline above or below.
    MovePointer { id: ID, direction: MoveDirection },
    /// Start a copy of timeline `id` below it; timeline `id` goes on at
    /// `instruction_start`.
    SpawnAt { id: ID, instruction_start: usize },
    /// Remove timeline `id`.
    RemoveAt(ID),
}

/// What a timeline may know of the others during a step: their identity
/// and how many pointers each holds.
#[derive(Debug, Clone)]
pub struct TimelineMeta {
    id: usize,
    pointers_count: usize,
}

impl TimelineMeta {
    /// The identity and the number of pointers.
    pub closed spec fn view_pair(&self) -> (usize, usize) {
        (self.id, self.pointers_count)
    }

    /// The identity of the timeline.
    pub fn id(&self) -> (r: usize)
        ensures
            r == self.view_pair().0,
    {
        self.id
    }

    /// How many pointers the timeline held.
    pub fn pointers_count(&self) -> (r: usize)
        ensures
            r == self.view_pair().1,
    {
        self.pointers_count
    }
}

/// The program, its input and output, and what is known of the timelines.
#[derive(Debug, Clone)]
pub struct BF5DContext {
    pub raw_program: String,
    pub tokens: Vec<Token>,
    pub program_input: String,
    pub program_output: String,
    pub total_timelines: usize,
    pub metadata: Vec<TimelineMeta>,
}

/// The mathematical value of a [`BF5DContext`].
pub struct ContextView {
    pub raw_program: Seq<char>,
    pub tokens: Seq<Token>,
    pub program_input: Seq<char>,
    pub program_output: Seq<char>,
    pub total_timelines: usize,
    /// Identity and number of pointers of each timeline, in order.
    pub metadata: Seq<(usize, usize)>,
}

pub open spec fn meta_pairs(m: Seq<TimelineMeta>) -> Seq<(usize, usize)> {
    m.map_values(|x: TimelineMeta| x.view_pair())
}

/// `c` with the identity and pointer count of each of `ts`, in order.
pub open spec fn with_metadata(c: ContextView, ts: Seq<TimelineView>) -> ContextView {
    ContextView {
        total_timelines: ts.len() as usize,
        metadata: ts.map_values(|t: TimelineView| (t.id, t.pointers.len() as usize)),
        ..c
    }
}

impl View for BF5DContext {
    type V = ContextView;

    open spec fn view(&self) -> ContextView {
        ContextView {
            raw_program: self.raw_program@,
            tokens: self.tokens@,
            program_input: self.program_input@,
            program_output: self.program_output@,
            total_timelines: self.total_timelines,
            metadata: meta_pairs(self.metadata@),
        }
    }
}

// ---------------------------------------------------------------------------
// The tape.
// ---------------------------------------------------------------------------

/// Where cell `index` lies in its half of the tape: cell `i >= 0` at `i`,
/// cell `-1 - i` at `i` of the backward half.
pub open spec fn tape_index(index: int) -> int {
    if index < 0 {
        -(index + 1)
    } else {
        index
    }
}

/// The half of the tape that holds cell `index`.
pub open spec fn tape_half(t: TimelineView, index: int) -> Seq<u8> {
    if index < 0 {
        t.data_backwards
    } else {
        t.data
    }
}

/// The value of cell `index` if it has been touched.
pub open spec fn cell(t: TimelineView, index: int) -> Option<u8> {
    let k = tape_index(index);
    let half = tape_half(t, index);
    if k < half.len() {
        Some(half[k])
    } else {
        None
    }
}

/// The value of cell `index`; a cell never touched holds 0.
pub open spec fn cell_value(t: TimelineView, index: int) -> u8 {
    match cell(t, index) {
        Some(v) => v,
        None => 0,
    }
}

/// `s` extended with zeros so that position `k` exists.
pub open spec fn grow(s: Seq<u8>, k: int) -> Seq<u8> {
    if k < s.len() {
        s
    } else {
        s + Seq::new((k + 1 - s.len()) as nat, |_i: int| 0u8)
    }
}

/// `t` with cell `index` set to `v`, the tape grown with zeros up to it.
pub open spec fn set_cell(t: TimelineView, index: int, v: u8) -> TimelineView {
    let k = tape_index(index);
    if index < 0 {
        TimelineView {
            id: t.id,
            data: t.data,
            data_backwards: grow(t.data_backwards, k).update(k, v),
            pointers: t.pointers,
            instruction_pointer: t.instruction_pointer,
        }
    } else {
        TimelineView {
            id: t.id,
            data: grow(t.data, k).update(k, v),
            data_backwards: t.data_backwards,
            pointers: t.pointers,
            instruction_pointer: t.instruction_pointer,
        }
    }
}

/// Applies `f` to the cell under each of `ps` in turn (a cell under two
/// pointers is changed twice).
pub open spec fn map_cells(t: TimelineView, ps: Seq<isize>, f: spec_fn(u8) -> u8) -> TimelineView
    decreases ps.len(),
{
    if ps.len() == 0 {
        t
    } else {
        let t1 = map_cells(t, ps.drop_last(), f);
        set_cell(t1, ps.last() as int, f(cell_value(t1, ps.last() as int)))
    }
}

/// Position in its half of the tape of the cell at a (possibly negative) index.
pub fn backwards_index(index: isize) -> (r: usize)
    ensures
        r == tape_index(index as int),
{
    if index < 0 {
        (-(index + 1)) as usize
    } else {
        index as usize
    }
}

/// `v` extended with zeros so that position `k` exists.
fn grow_to(v: &mut Vec<u8>, k: usize)
    requires
        k < usize::MAX,
    ensures
        final(v)@ == grow(old(v)@, k as int),
{
    let len = v.len();
    if k >= len {
        let ghost start = v@;
        while v.len() <= k
            invariant
                start.len() == len,
                k < usize::MAX,
                len <= v.len() <= k + 1,
                v@ == start + Seq::new((v.len() - len) as nat, |_i: int| 0u8),
            decreases k + 1 - v.len(),
        {
            v.push(0);
            assert(v@ =~= start + Seq::new((v.len() - len) as nat, |_i: int| 0u8));
        }
        assert(v@ =~= grow(start, k as int));
    }
}

/// How many of `ps` point at cell `j`.
pub open spec fn pointer_count(ps: Seq<isize>, j: int) -> nat
    decreases ps.len(),
{
    if ps.len() == 0 {
        0
    } else {
        pointer_count(ps.drop_last(), j) + if ps.last() as int == j {
            1nat
        } else {
            0nat
        }
    }
}

/// The cells of a timeline as shown, left to right: the backward half
/// reversed (cells ..., -2, -1) and then the forward half (cells 0, 1, ...),
/// each with its index, its value and how many pointers are at it.
pub open spec fn cell_layout_spec(t: TimelineView) -> Seq<(isize, u8, usize)> {
    let b = t.data_backwards.len() as int;
    Seq::new(
        (b + t.data.len()) as nat,
        |k: int|
            if k < b {
                ((k - b) as isize, t.data_backwards[b - 1 - k], pointer_count(t.pointers, k - b) as usize)
            } else {
                ((k - b) as isize, t.data[k - b], pointer_count(t.pointers, k - b) as usize)
            },
    )
}

/// How many of `ps` point at cell `j`.
fn count_pointers(ps: &Vec<isize>, j: isize) -> (r: usize)
    ensures
        r == pointer_count(ps@, j as int),
{
    let mut c: usize = 0;
    let mut i: usize = 0;
    assert(ps@.take(0) =~= Seq::<isize>::empty());
    while i < ps.len()
        invariant
            i <= ps.len(),
            c <= i,
            c == pointer_count(ps@.take(i as int), j as int),
        decreases ps.len() - i,
    {
        assert(ps@.take(i + 1).drop_last() =~= ps@.take(i as int));
        if ps[i] == j {
            c = c + 1;
        }
        i = i + 1;
    }
    assert(ps@.take(i as int) =~= ps@);
    c
}

/// The cells of a timeline as shown (see [`cell_layout_spec`]).
pub fn cell_layout(t: &Timeline) -> (r: Vec<(isize, u8, usize)>)
    requires
        t.data.len() <= isize::MAX,
        t.data_backwards.len() <= isize::MAX,
    ensures
        r@ == cell_layout_spec(t@),
{
    let b = t.data_backwards.len();
    let mut r: Vec<(isize, u8, usize)> = Vec::new();
    let mut k: usize = 0;
    while k < b
        invariant
            b == t.data_backwards.len(),
            b <= isize::MAX,
            k <= b,
            r@ =~= cell_layout_spec(t@).take(k as int),
        decreases b - k,
    {
        let j = b - k;
        let index: isize = -(j as isize);
        let cell = (index, t.data_backwards[j - 1], count_pointers(&t.pointers, index));
        r.push(cell);
        k = k + 1;
        assert(r@ =~= cell_layout_spec(t@).take(k as int));
    }
    let n = t.data.len();
    let mut i: usize = 0;
    while i < n
        invariant
            b == t.data_backwards.len(),
            n == t.data.len(),
            n <= isize::MAX,
            i <= n,
            r@ =~= cell_layout_spec(t@).take(b + i),
        decreases n - i,
    {
        let index: isize = i as isize;
        let cell = (index, t.data[i], count_pointers(&t.pointers, index));
        r.push(cell);
        i = i + 1;
        assert(r@ =~= cell_layout_spec(t@).take(b + i));
    }
    assert(cell_layout_spec(t@).take(b + n) =~= cell_layout_spec(t@));
    r
}

impl Timeline {
    /// A fresh timeline: one cell, holding 0, under one pointer.
    pub fn new(ids: &mut IdGen) -> (r: Self)
        requires
            old(ids).next < usize::MAX,
        ensures
            r@ == (TimelineView {
                id: old(ids).next,
                data: seq![0u8],
                data_backwards: seq![],
                pointers: seq![0isize],
                instruction_pointer: 0,
            }),
            final(ids).next == old(ids).next + 1,
    {
        let id = ids.fresh();
        let mut data: Vec<u8> = Vec::new();
        data.push(0);
        let mut pointers: Vec<isize> = Vec::new();
        pointers.push(0);
        let r = Timeline { id, data, data_backwards: Vec::new(), pointers, instruction_pointer: 0 };
        assert(r@.data =~= seq![0u8]);
        assert(r@.pointers =~= seq![0isize]);
        assert(r@.data_backwards =~= seq![]);
        r
    }

    /// A copy of this timeline under a new identity.
    pub fn clone_new_id(&self, ids: &mut IdGen) -> (r: Self)
        requires
            old(ids).next < usize::MAX,
        ensures
            r@ == (TimelineView { id: old(ids).next, ..self@ }),
            final(ids).next == old(ids).next + 1,
    {
        let id = ids.fresh();
        let data = self.data.clone();
        let data_backwards = self.data_backwards.clone();
        let pointers = self.pointers.clone();
        assert(data@ =~= self.data@);
        assert(data_backwards@ =~= self.data_backwards@);
        assert(pointers@ =~= self.pointers@);
        Timeline { id, data, data_backwards, pointers, instruction_pointer: self.instruction_pointer }
    }

    /// The cell at `index`, grown into the tape (with zeros) if it was not
    /// there yet. What a write through it does to every cell is
    /// `law_set_cell` in the laws module.
    fn data_at_mut(&mut self, index: isize) -> (r: &mut u8)
        ensures
            *r == cell_value(old(self)@, index as int),
            final(self)@ == set_cell(old(self)@, index as int, *final(r)),
    {
        let k = backwards_index(index);
        if index < 0 {
            grow_to(&mut self.data_backwards, k);
            &mut self.data_backwards[k]
        } else {
            grow_to(&mut self.data, k);
            &mut self.data[k]
        }
    }

    /// The cell at `index` if it has been touched.
    pub fn data_at(&self, index: isize) -> (r: Option<&u8>)
        ensures
            match cell(self@, index as int) {
                Some(v) => r matches Some(x) && *x == v,
                None => r is None,
            },
    {
        let data = if index < 0 {
            &self.data_backwards
        } else {
            &self.data
        };
        let k = backwards_index(index);
        if k < data.len() {
            Some(&data[k])
        } else {
            None
        }
    }
}

impl BF5DContext {
    /// An empty program with input `hello`.
    pub fn new() -> (r: Self)
        ensures
            r@.raw_program == Seq::<char>::empty(),
            r@.tokens == Seq::<Token>::empty(),
            r@.program_input == "hello"@,
            r@.program_output == Seq::<char>::empty(),
            r@.total_timelines == 0,
            r@.metadata == Seq::<(usize, usize)>::empty(),
    {
        let r = BF5DContext {
            raw_program: String::new(),
            tokens: Vec::new(),
            program_input: "hello".to_string(),
            program_output: String::new(),
            total_timelines: 0,
            metadata: Vec::new(),
        };
        assert(r@.tokens =~= Seq::<Token>::empty());
        assert(r@.metadata =~= Seq::<(usize, usize)>::empty());
        r
    }

    /// Records the identity and pointer count of each timeline, in order.
    pub fn collect_timeline_metadata(&mut self, timelines: &Vec<Timeline>)
        ensures
            final(self)@ == with_metadata(old(self)@, views_of(timelines@)),
    {
        self.total_timelines = timelines.len();
        let mut metadata: Vec<TimelineMeta> = Vec::new();
        let mut i: usize = 0;
        while i < timelines.len()
            invariant
                i <= timelines.len(),
                metadata@.len() == i,
                meta_pairs(metadata@) =~= timelines@.take(i as int).map_values(
                    |t: Timeline| (t.id, t.pointers.len()),
                ),
            decreases timelines.len() - i,
        {
            let t = &timelines[i];
            let ghost prev = metadata@;
            metadata.push(TimelineMeta { id: t.id, pointers_count: t.pointers.len() });
            i = i + 1;
            assert forall|k: int| 0 <= k < i implies #[trigger] meta_pairs(metadata@)[k]
                == (timelines@[k].id, timelines@[k].pointers.len()) by {
                if k < i - 1 {
                    assert(metadata@[k] == prev[k]);
                    assert(meta_pairs(prev)[k] == timelines@.take(i - 1).map_values(
                        |t: Timeline| (t.id, t.pointers.len()),
                    )[k]);
                }
            }
            assert(meta_pairs(metadata@) =~= timelines@.take(i as int).map_values(
                |t: Timeline| (t.id, t.pointers.len()),
            ));
        }
        assert(timelines@.take(i as int) =~= timelines@);
        self.metadata = metadata;
        assert(self@.metadata =~= with_metadata(old(self)@, views_of(timelines@)).metadata);
    }
}

// ---------------------------------------------------------------------------
// Calls into std and itertools.
// ---------------------------------------------------------------------------

/// `String::push`: appends one character at the end.
#[verifier::external_body]
fn push_char(s: &mut String, c: char)
    ensures
        final(s)@ == old(s)@.push(c),
{
    s.push(c);
}

/// `String::remove` at byte 0: takes the first character out and returns it.
/// It panics on an empty string, which `requires` rules out.
#[verifier::external_body]
fn remove_first_char(s: &mut String) -> (c: char)
    requires
        old(s)@.len() > 0,
    ensures
        c == old(s)@[0],
        final(s)@ == old(s)@.drop_first(),
{
    s.remove(0)
}

/// Whether two identities are the same.
fn same_id(a: usize, b: usize) -> (r: bool)
    ensures
        r == (a == b),
{
    a == b
}

/// `itertools::Itertools::find_position` over the identities in `ids`,
/// looking for `id`: the position of the first one equal to it, if any.
#[verifier::external_body]
fn find_id_position(ids: &Vec<usize>, id: usize) -> (r: Option<usize>)
    ensures
        match r {
            Some(k) => first_position(ids@, id) == Some(k as int),
            None => first_position(ids@, id) is None,
        },
{
    ids.iter().find_position(|x| same_id(**x, id)).map(|(i, _)| i)
}

/// The position of the first `x` in `s`, if any.
pub open spec fn first_position(s: Seq<usize>, x: usize) -> Option<int>
    decreases s.len(),
{
    if s.len() == 0 {
        None
    } else if s[0] == x {
        Some(0)
    } else {
        match first_position(s.drop_first(), x) {
            Some(k) => Some(k + 1),
            None => None,
        }
    }
}

pub proof fn lemma_first_position(s: Seq<usize>, x: usize)
    ensures
        match first_position(s, x) {
            Some(k) => 0 <= k < s.len() && s[k] == x && forall|j: int| 0 <= j < k ==> s[j] != x,
            None => forall|j: int| 0 <= j < s.len() ==> s[j] != x,
        },
    decreases s.len(),
{
    if s.len() > 0 && s[0] != x {
        lemma_first_position(s.drop_first(), x);
        match first_position(s.drop_first(), x) {
            Some(k) => {
                assert forall|j: int| 0 <= j < k + 1 implies s[j] != x by {
                    if j > 0 {
                        assert(s[j] == s.drop_first()[j - 1]);
                    }
                }
            },
            None => {
                assert forall|j: int| 0 <= j < s.len() implies s[j] != x by {
                    if j > 0 {
                        assert(s[j] == s.drop_first()[j - 1]);
                    }
                }
            },
        }
    }
}

// ---------------------------------------------------------------------------
// One step of a timeline.
// ---------------------------------------------------------------------------

pub open spec fn with_pointers(t: TimelineView, ps: Seq<isize>) -> TimelineView {
    TimelineView { pointers: ps, ..t }
}

pub open spec fn with_instruction_pointer(t: TimelineView, ip: usize) -> TimelineView {
    TimelineView { instruction_pointer: ip, ..t }
}

/// Every pointer moved by `delta`, if each stays within `isize`.
pub open spec fn shift_pointers(ps: Seq<isize>, delta: int) -> Option<Seq<isize>> {
    if forall|k: int| 0 <= k < ps.len() ==> isize::MIN <= #[trigger] ps[k] + delta <= isize::MAX {
        Some(Seq::new(ps.len(), |k: int| (ps[k] + delta) as isize))
    } else {
        None
    }
}

/// `v + 1` modulo 256.
pub open spec fn wrapping_inc(v: u8) -> u8 {
    if v == 255 {
        0
    } else {
        (v + 1) as u8
    }
}

/// `v - 1` modulo 256.
pub open spec fn wrapping_dec(v: u8) -> u8 {
    if v == 0 {
        255
    } else {
        (v - 1) as u8
    }
}

/// The characters written for the cells under `ps`, if each has been touched.
pub open spec fn written(t: TimelineView, ps: Seq<isize>) -> Option<Seq<char>> {
    if forall|k: int| 0 <= k < ps.len() ==> (cell(t, #[trigger] ps[k] as int) is Some) {
        Some(Seq::new(ps.len(), |k: int| cell_value(t, ps[k] as int) as char))
    } else {
        None
    }
}

/// What an instruction does to the tape, the pointers, and the input and
/// output; `None` where it panics.
pub open spec fn act_on_data(t: TimelineView, c: ContextView, action: Token) -> Option<
    (TimelineView, ContextView),
> {
    match action {
        Token::Move(MoveDirection::Left) => match shift_pointers(t.pointers, -1) {
            Some(ps) => Some((with_pointers(t, ps), c)),
            None => None,
        },
        Token::Move(MoveDirection::Right) => match shift_pointers(t.pointers, 1) {
            Some(ps) => Some((with_pointers(t, ps), c)),
            None => None,
        },
        Token::Update(UpdateType::Increment) => Some(
            (map_cells(t, t.pointers, |v: u8| wrapping_inc(v)), c),
        ),
        Token::Update(UpdateType::Decrement) => Some(
            (map_cells(t, t.pointers, |v: u8| wrapping_dec(v)), c),
        ),
        Token::Write => match written(t, t.pointers) {
            Some(out) => Some((t, ContextView { program_output: c.program_output + out, ..c })),
            None => None,
        },
        Token::Read => {
            if c.program_input.len() > 0 {
                let ch = c.program_input[0];
                Some(
                    (
                        map_cells(t, t.pointers, |v: u8| ch as u8),
                        ContextView { program_input: c.program_input.drop_first(), ..c },
                    ),
                )
            } else {
                None
            }
        },
        Token::Rewind => None,
        _ => Some((t, c)),
    }
}

/// Scans the cells under `ps` in order up to the first that is not 0:
/// `Some(false)` if that cell has been touched, `None` if the scan meets
/// a cell never touched first, `Some(true)` if all are 0.
pub open spec fn scan_zero(t: TimelineView, ps: Seq<isize>) -> Option<bool>
    decreases ps.len(),
{
    if ps.len() == 0 {
        Some(true)
    } else {
        match cell(t, ps[0] as int) {
            None => None,
            Some(v) => if v != 0 {
                Some(false)
            } else {
                scan_zero(t, ps.drop_first())
            },
        }
    }
}

/// The identities in a list of metadata.
pub open spec fn meta_ids(m: Seq<(usize, usize)>) -> Seq<usize> {
    m.map_values(|p: (usize, usize)| p.0)
}

/// Where the instruction pointer goes after `action`, the instruction at
/// `ip`; `None` where it panics. A `[` jumps to its `]` if every pointed
/// cell is 0, a `]` to its `[` if one is not; an `@` waits while the
/// timeline below holds pointers; all else moves on by one.
pub open spec fn next_instruction(t: TimelineView, c: ContextView, action: Token, ip: usize) -> Option<
    usize,
> {
    match action {
        Token::Jump { type_: JumpType::IfZero, index } => match scan_zero(t, t.pointers) {
            Some(true) => Some(index),
            Some(false) => Some((ip + 1) as usize),
            None => None,
        },
        Token::Jump { type_: JumpType::IfNotZero, index } => match scan_zero(t, t.pointers) {
            Some(false) => Some(index),
            Some(true) => Some((ip + 1) as usize),
            None => None,
        },
        Token::Await => match first_position(meta_ids(c.metadata), t.id) {
            Some(k) => if k + 1 < c.metadata.len() {
                if c.metadata[k + 1].1 == 0 {
                    Some((ip + 1) as usize)
                } else {
                    Some(ip)
                }
            } else {
                Some((ip + 1) as usize)
            },
            None => None,
        },
        _ => Some((ip + 1) as usize),
    }
}

/// The command that `action` hands on.
pub open spec fn command_for(id: ID, action: Token) -> Command {
    match action {
        Token::Kill => Command::RemoveAt(id),
        Token::Move(MoveDirection::Up) => Command::MovePointer { id, direction: MoveDirection::Up },
        Token::Move(MoveDirection::Down) => Command::MovePointer {
            id,
            direction: MoveDirection::Down,
        },
        Token::Spawn { index } => Command::SpawnAt { id, instruction_start: index },
        _ => Command::Nothing,
    }
}

/// One step of timeline `t` under context `c`: the timeline and context
/// after it and the command it hands on; `None` where the step panics. A
/// timeline whose instruction pointer has run past the program asks to be
/// removed and changes nothing.
pub open spec fn update_spec(t: TimelineView, c: ContextView) -> Option<
    (TimelineView, ContextView, Command),
> {
    if t.instruction_pointer >= c.tokens.len() {
        Some((t, c, Command::RemoveAt(t.id)))
    } else {
        let action = c.tokens[t.instruction_pointer as int];
        match act_on_data(t, c, action) {
            None => None,
            Some((t1, c1)) => match next_instruction(t1, c1, action, t.instruction_pointer) {
                None => None,
                Some(ip) => Some((with_instruction_pointer(t1, ip), c1, command_for(t.id, action))),
            },
        }
    }
}

/// What a cell update does.
enum CellOp {
    Increment,
    Decrement,
    Assign(u8),
}

spec fn cell_op_fn(op: CellOp) -> spec_fn(u8) -> u8 {
    match op {
        CellOp::Increment => |v: u8| wrapping_inc(v),
        CellOp::Decrement => |v: u8| wrapping_dec(v),
        CellOp::Assign(x) => |v: u8| x,
    }
}

proof fn lemma_map_cells_step(t: TimelineView, ps: Seq<isize>, i: int, f: spec_fn(u8) -> u8)
    requires
        0 <= i < ps.len(),
    ensures
        map_cells(t, ps.take(i + 1), f) == ({
            let t1 = map_cells(t, ps.take(i), f);
            set_cell(t1, ps[i] as int, f(cell_value(t1, ps[i] as int)))
        }),
{
    assert(ps.take(i + 1).drop_last() =~= ps.take(i));
}

pub proof fn lemma_map_cells_frame(t: TimelineView, ps: Seq<isize>, f: spec_fn(u8) -> u8)
    ensures
        map_cells(t, ps, f).pointers == t.pointers,
        map_cells(t, ps, f).id == t.id,
        map_cells(t, ps, f).instruction_pointer == t.instruction_pointer,
    decreases ps.len(),
{
    if ps.len() > 0 {
        lemma_map_cells_frame(t, ps.drop_last(), f);
    }
}

proof fn lemma_scan_zero_skip(t: TimelineView, ps: Seq<isize>, i: int)
    requires
        0 <= i < ps.len(),
    ensures
        scan_zero(t, ps.skip(i)) == match cell(t, ps[i] as int) {
            None => None,
            Some(v) => if v != 0 {
                Some(false)
            } else {
                scan_zero(t, ps.skip(i + 1))
            },
        },
{
    assert(ps.skip(i).drop_first() =~= ps.skip(i + 1));
}

impl Timeline {
    /// Applies `op` to the cell under each pointer in turn.
    fn update_cells(&mut self, op: CellOp)
        ensures
            final(self)@ == map_cells(old(self)@, old(self)@.pointers, cell_op_fn(op)),
    {
        let ps = self.pointers.clone();
        assert(ps@ =~= self.pointers@);
        let ghost t0 = self@;
        let mut i: usize = 0;
        proof {
            assert(ps@.take(0) =~= Seq::<isize>::empty());
        }
        while i < ps.len()
            invariant
                i <= ps.len(),
                ps@ == t0.pointers,
                self@ == map_cells(t0, ps@.take(i as int), cell_op_fn(op)),
            decreases ps.len() - i,
        {
            proof {
                lemma_map_cells_step(t0, ps@, i as int, cell_op_fn(op));
            }
            let d = self.data_at_mut(ps[i]);
            match op {
                CellOp::Increment => {
                    *d = d.wrapping_add(1);
                },
                CellOp::Decrement => {
                    *d = d.wrapping_sub(1);
                },
                CellOp::Assign(x) => {
                    *d = x;
                },
            }
            i = i + 1;
        }
        assert(ps@.take(i as int) =~= ps@);
    }

    /// Moves every pointer one cell left (`right == false`) or right.
    fn shift_all(&mut self, right: bool)
        requires
            shift_pointers(old(self)@.pointers, if right { 1int } else { -1int }) is Some,
        ensures
            final(self)@ == with_pointers(
                old(self)@,
                shift_pointers(old(self)@.pointers, if right { 1int } else { -1int })->0,
            ),
    {
        let ghost t0 = self@;
        let ghost delta: int = if right { 1int } else { -1int };
        let n = self.pointers.len();
        let mut i: usize = 0;
        while i < n
            invariant
                i <= n,
                n == t0.pointers.len(),
                self.pointers@.len() == n,
                delta == (if right { 1int } else { -1int }),
                shift_pointers(t0.pointers, delta) is Some,
                forall|k: int| 0 <= k < i ==> self.pointers@[k] == t0.pointers[k] + delta,
                forall|k: int| i <= k < n ==> self.pointers@[k] == t0.pointers[k],
                self@ == with_pointers(t0, self.pointers@),
            decreases n - i,
        {
            let p = self.pointers[i];
            assert(isize::MIN <= t0.pointers[i as int] + delta <= isize::MAX);
            if right {
                self.pointers.set(i, p + 1);
            } else {
                self.pointers.set(i, p - 1);
            }
            i = i + 1;
        }
        assert(self.pointers@ =~= shift_pointers(t0.pointers, delta)->0);
    }

    /// The scan of the cells under the pointers that `[` and `]` make.
    pub fn scan_pointers(&self) -> (r: Option<bool>)
        ensures
            r == scan_zero(self@, self@.pointers),
    {
        let n = self.pointers.len();
        let mut i: usize = 0;
        assert(self@.pointers.skip(0) =~= self@.pointers);
        while i < n
            invariant
                i <= n,
                n == self@.pointers.len(),
                scan_zero(self@, self@.pointers) == scan_zero(self@, self@.pointers.skip(i as int)),
            decreases n - i,
        {
            proof {
                lemma_scan_zero_skip(self@, self@.pointers, i as int);
            }
            match self.data_at(self.pointers[i]) {
                None => {
                    return None;
                },
                Some(v) => {
                    if *v != 0 {
                        return Some(false);
                    }
                },
            }
            i = i + 1;
        }
        assert(self@.pointers.skip(i as int) =~= Seq::<isize>::empty());
        Some(true)
    }

    /// Appends the characters under the pointers to the output.
    fn write_all(&self, output: &mut String)
        requires
            written(self@, self@.pointers) is Some,
        ensures
            final(output)@ == old(output)@ + written(self@, self@.pointers)->0,
    {
        let n = self.pointers.len();
        let ghost out = written(self@, self@.pointers)->0;
        let mut i: usize = 0;
        while i < n
            invariant
                i <= n,
                n == self@.pointers.len(),
                written(self@, self@.pointers) == Some(out),
                output@ == old(output)@ + out.take(i as int),
            decreases n - i,
        {
            assert(cell(self@, self@.pointers[i as int] as int) is Some);
            match self.data_at(self.pointers[i]) {
                Some(v) => {
                    push_char(output, *v as char);
                },
                None => {},
            }
            assert(out.take(i + 1) =~= out.take(i as int).push(out[i as int]));
            i = i + 1;
        }
        assert(out.take(n as int) =~= out);
    }
}

/// The identities in the metadata, in order.
fn metadata_ids(m: &Vec<TimelineMeta>) -> (r: Vec<usize>)
    ensures
        r@ == meta_ids(meta_pairs(m@)),
{
    let mut r: Vec<usize> = Vec::new();
    let mut i: usize = 0;
    while i < m.len()
        invariant
            i <= m.len(),
            r@ =~= meta_ids(meta_pairs(m@)).take(i as int),
        decreases m.len() - i,
    {
        r.push(m[i].id);
        i = i + 1;
        assert(r@ =~= meta_ids(meta_pairs(m@)).take(i as int));
    }
    assert(meta_ids(meta_pairs(m@)).take(i as int) =~= meta_ids(meta_pairs(m@)));
    r
}

/// Where `@` sends the instruction pointer: on by one if the timeline
/// below holds no pointers or there is none, else nowhere; `None` if the
/// timeline is not in the metadata.
fn await_next(id: ID, ip: usize, context: &BF5DContext) -> (r: Option<usize>)
    requires
        ip < usize::MAX,
    ensures
        r == next_instruction(TimelineView { id, ..arbitrary() }, context@, Token::Await, ip),
{
    let ids = metadata_ids(&context.metadata);
    match find_id_position(&ids, id) {
        None => None,
        Some(k) => {
            proof {
                lemma_first_position(ids@, id);
            }
            if context.metadata.len() - k > 1 {
                if context.metadata[k + 1].pointers_count == 0 {
                    Some(ip + 1)
                } else {
                    Some(ip)
                }
            } else {
                Some(ip + 1)
            }
        },
    }
}

impl Timeline {
    /// Whether [`Timeline::update`] can run on this timeline and context
    /// without a panic.
    pub fn can_update(&self, context: &BF5DContext) -> (r: bool)
        ensures
            r == update_spec(self@, context@) is Some,
    {
        if self.instruction_pointer >= context.tokens.len() {
            return true;
        }
        let action = context.tokens[self.instruction_pointer];
        match action {
            Token::Move(MoveDirection::Left) => self.pointers_can_shift(false),
            Token::Move(MoveDirection::Right) => self.pointers_can_shift(true),
            Token::Write => self.pointed_cells_touched(),
            Token::Read => context.program_input.as_str().unicode_len() > 0,
            Token::Rewind => false,
            Token::Jump { type_: _, index: _ } => self.scan_pointers().is_some(),
            Token::Await => await_next(self.id, self.instruction_pointer, context).is_some(),
            _ => true,
        }
    }

    /// Whether every pointer can move one cell left (`right == false`) or right.
    fn pointers_can_shift(&self, right: bool) -> (r: bool)
        ensures
            r == shift_pointers(self@.pointers, if right { 1int } else { -1int }) is Some,
    {
        let n = self.pointers.len();
        let mut i: usize = 0;
        while i < n
            invariant
                i <= n,
                n == self@.pointers.len(),
                forall|k: int|
                    0 <= k < i ==> isize::MIN <= #[trigger] self@.pointers[k] + (if right {
                        1int
                    } else {
                        -1int
                    }) <= isize::MAX,
            decreases n - i,
        {
            let p = self.pointers[i];
            if right && p == isize::MAX {
                return false;
            }
            if !right && p == isize::MIN {
                return false;
            }
            i = i + 1;
        }
        true
    }

    /// Whether the cell under every pointer has been touched.
    fn pointed_cells_touched(&self) -> (r: bool)
        ensures
            r == written(self@, self@.pointers) is Some,
    {
        let n = self.pointers.len();
        let mut i: usize = 0;
        while i < n
            invariant
                i <= n,
                n == self@.pointers.len(),
                forall|k: int| 0 <= k < i ==> (cell(self@, #[trigger] self@.pointers[k] as int) is Some),
            decreases n - i,
        {
            if self.data_at(self.pointers[i]).is_none() {
                return false;
            }
            i = i + 1;
        }
        true
    }

    /// Runs the instruction under the instruction pointer: it acts on the
    /// tape, the pointers and the input and output, moves the instruction
    /// pointer, and hands back the command it asks for.
    pub fn update(&mut self, context: &mut BF5DContext) -> (r: (&Self, Command))
        requires
            update_spec(old(self)@, old(context)@) is Some,
        ensures
            update_spec(old(self)@, old(context)@) == Some((final(self)@, final(context)@, r.1)),
            *r.0 == *final(self),
    {
        if self.instruction_pointer >= context.tokens.len() {
            let id = self.id;
            return (self, Command::RemoveAt(id));
        }
        let ip = self.instruction_pointer;
        let action = context.tokens[ip];
        // what the instruction does to the data
        match action {
            Token::Move(dir) => match dir {
                MoveDirection::Left => self.shift_all(false),
                MoveDirection::Right => self.shift_all(true),
                _ => {},
            },
            Token::Update(type_) => match type_ {
                UpdateType::Increment => self.update_cells(CellOp::Increment),
                UpdateType::Decrement => self.update_cells(CellOp::Decrement),
            },
            Token::Write => {
                self.write_all(&mut context.program_output);
            },
            Token::Read => {
                let c = remove_first_char(&mut context.program_input);
                self.update_cells(CellOp::Assign(c as u8));
            },
            _ => {},
        }
        proof {
            lemma_map_cells_frame(old(self)@, old(self)@.pointers, |v: u8| wrapping_inc(v));
            lemma_map_cells_frame(old(self)@, old(self)@.pointers, |v: u8| wrapping_dec(v));
            if action is Read {
                let ch = old(context)@.program_input[0];
                lemma_map_cells_frame(old(self)@, old(self)@.pointers, |v: u8| ch as u8);
            }
        }
        // where the instruction pointer goes
        match action {
            Token::Jump { type_, index } => {
                let scan = self.scan_pointers();
                match type_ {
                    JumpType::IfZero => {
                        if scan == Some(true) {
                            self.instruction_pointer = index;
                        } else {
                            self.instruction_pointer = ip + 1;
                        }
                    },
                    JumpType::IfNotZero => {
                        if scan == Some(false) {
                            self.instruction_pointer = index;
                        } else {
                            self.instruction_pointer = ip + 1;
                        }
                    },
                }
            },
            Token::Await => {
                match await_next(self.id, ip, context) {
                    Some(next) => {
                        self.instruction_pointer = next;
                    },
                    None => {},
                }
            },
            _ => {
                self.instruction_pointer = ip + 1;
            },
        }
        // what the instruction asks of the other timelines
        let id = self.id;
        let command = match action {
            Token::Kill => Command::RemoveAt(id),
            Token::Move(dir) => match dir {
                MoveDirection::Up | MoveDirection::Down => Command::MovePointer { id, direction: dir },
                _ => Command::Nothing,
            },
            Token::Spawn { index } => Command::SpawnAt { id, instruction_start: index },
            _ => Command::Nothing,
        };
        (self, command)
    }
}

// ---------------------------------------------------------------------------
// Commands on the set of timelines.
// ---------------------------------------------------------------------------

/// The values of a list of timelines.
pub open spec fn views_of(ts: Seq<Timeline>) -> Seq<TimelineView> {
    ts.map_values(|t: Timeline| t@)
}

/// The identities of a list of timelines, in order.
pub open spec fn timeline_ids(ts: Seq<TimelineView>) -> Seq<usize> {
    ts.map_values(|t: TimelineView| t.id)
}

/// Timeline `from` hands all its pointers to timeline `to`, which puts
/// them after its own.
pub open spec fn hand_pointers(ts: Seq<TimelineView>, from: int, to: int) -> Seq<TimelineView> {
    ts.update(to, with_pointers(ts[to], ts[to].pointers + ts[from].pointers)).update(
        from,
        with_pointers(ts[from], seq![]),
    )
}

/// What a command does to the list of timelines, with the next fresh
/// identity; `None` where it panics. A command names its timeline by
/// identity, the first with it counts, and none with it is a panic. Moving
/// pointers up hands them to the timeline above, and drops them from the
/// first timeline, which has none above; moving them down hands them to the
/// timeline below, drops them from a lone timeline, and panics on the last of
/// several. Spawning puts a copy of the timeline,
/// under a fresh identity, just below it and sends the timeline itself to
/// `instruction_start`. Removing takes the timeline out, unless it is the
/// first.
pub open spec fn execute_spec(ts: Seq<TimelineView>, command: Command, next_id: usize) -> Option<
    (Seq<TimelineView>, usize),
> {
    match command {
        Command::Nothing => Some((ts, next_id)),
        Command::MovePointer { id, direction } => match first_position(timeline_ids(ts), id) {
            None => None,
            Some(idx) => match direction {
                MoveDirection::Up => if idx != 0 {
                    Some((hand_pointers(ts, idx, idx - 1), next_id))
                } else {
                    Some((ts.update(idx, with_pointers(ts[idx], seq![])), next_id))
                },
                MoveDirection::Down => if idx + 1 < ts.len() {
                    Some((hand_pointers(ts, idx, idx + 1), next_id))
                } else if idx == 0 {
                    Some((ts.update(idx, with_pointers(ts[idx], seq![])), next_id))
                } else {
                    None
                },
                _ => None,
            },
        },
        Command::SpawnAt { id, instruction_start } => match first_position(timeline_ids(ts), id) {
            None => None,
            Some(idx) => if next_id < usize::MAX {
                Some(
                    (
                        ts.update(idx, with_instruction_pointer(ts[idx], instruction_start)).insert(
                            idx + 1,
                            TimelineView { id: next_id, ..ts[idx] },
                        ),
                        (next_id + 1) as usize,
                    ),
                )
            } else {
                None
            },
        },
        Command::RemoveAt(id) => match first_position(timeline_ids(ts), id) {
            None => None,
            Some(idx) => if idx != 0 {
                Some((ts.remove(idx), next_id))
            } else {
                Some((ts, next_id))
            },
        },
    }
}

/// The position of the first timeline with identity `id`, if any.
pub fn find_timeline(timelines: &Vec<Timeline>, id: ID) -> (r: Option<usize>)
    ensures
        match r {
            Some(k) => first_position(timeline_ids(views_of(timelines@)), id) == Some(k as int),
            None => first_position(timeline_ids(views_of(timelines@)), id) is None,
        },
{
    let mut ids: Vec<usize> = Vec::new();
    let mut i: usize = 0;
    while i < timelines.len()
        invariant
            i <= timelines.len(),
            ids@ =~= timeline_ids(views_of(timelines@)).take(i as int),
        decreases timelines.len() - i,
    {
        ids.push(timelines[i].id);
        i = i + 1;
        assert(ids@ =~= timeline_ids(views_of(timelines@)).take(i as int));
    }
    assert(timeline_ids(views_of(timelines@)).take(i as int) =~= timeline_ids(views_of(timelines@)));
    find_id_position(&ids, id)
}

/// Empties the pointers of timeline `idx` and returns them.
fn take_pointers(timelines: &mut Vec<Timeline>, idx: usize) -> (ps: Vec<isize>)
    requires
        idx < old(timelines).len(),
    ensures
        ps@ == old(timelines)@[idx as int].pointers@,
        views_of(final(timelines)@) == views_of(old(timelines)@).update(
            idx as int,
            with_pointers(old(timelines)@[idx as int]@, seq![]),
        ),
{
    let t = &mut timelines[idx];
    let ps = t.pointers.clone();
    assert(ps@ =~= t.pointers@);
    t.pointers.clear();
    assert(views_of(timelines@) =~= views_of(old(timelines)@).update(
        idx as int,
        with_pointers(old(timelines)@[idx as int]@, seq![]),
    ));
    ps
}

/// Puts `ps` after the pointers of timeline `idx`.
fn give_pointers(timelines: &mut Vec<Timeline>, idx: usize, ps: Vec<isize>)
    requires
        idx < old(timelines).len(),
    ensures
        views_of(final(timelines)@) == views_of(old(timelines)@).update(
            idx as int,
            with_pointers(
                old(timelines)@[idx as int]@,
                old(timelines)@[idx as int].pointers@ + ps@,
            ),
        ),
{
    let ghost ps0 = ps@;
    let mut ps = ps;
    let t = &mut timelines[idx];
    t.pointers.append(&mut ps);
    assert(views_of(timelines@) =~= views_of(old(timelines)@).update(
        idx as int,
        with_pointers(old(timelines)@[idx as int]@, old(timelines)@[idx as int].pointers@ + ps0),
    ));
}

impl BF5DContext {
    /// Whether [`BF5DContext::execute_command`] can run without a panic.
    pub fn can_execute(&self, command: &Command, timelines: &Vec<Timeline>, ids: &IdGen) -> (r: bool)
        ensures
            r == execute_spec(views_of(timelines@), *command, ids.next) is Some,
    {
        proof {
            match *command {
                Command::MovePointer { id, direction: _ } => {
                    lemma_first_position(timeline_ids(views_of(timelines@)), id);
                },
                Command::SpawnAt { id, instruction_start: _ } => {
                    lemma_first_position(timeline_ids(views_of(timelines@)), id);
                },
                Command::RemoveAt(id) => {
                    lemma_first_position(timeline_ids(views_of(timelines@)), id);
                },
                _ => {},
            }
        }
        assert(timeline_ids(views_of(timelines@)).len() == timelines@.len());
        match *command {
            Command::Nothing => true,
            Command::MovePointer { id, direction } => match find_timeline(timelines, id) {
                None => false,
                Some(idx) => match direction {
                    MoveDirection::Up => true,
                    MoveDirection::Down => idx < timelines.len() - 1 || idx == 0,
                    _ => false,
                },
            },
            Command::SpawnAt { id, instruction_start: _ } => find_timeline(timelines, id).is_some()
                && ids.next < usize::MAX,
            Command::RemoveAt(id) => find_timeline(timelines, id).is_some(),
        }
    }

    /// Carries out a command that a timeline handed back.
    pub fn execute_command(&self, command: Command, timelines: &mut Vec<Timeline>, ids: &mut IdGen)
        requires
            execute_spec(views_of(old(timelines)@), command, old(ids).next) is Some,
        ensures
            execute_spec(views_of(old(timelines)@), command, old(ids).next) == Some(
                (views_of(final(timelines)@), final(ids).next),
            ),
    {
        assert(timeline_ids(views_of(timelines@)).len() == timelines@.len());
        match command {
            Command::MovePointer { id, direction } => match find_timeline(timelines, id) {
                Some(index) => {
                    proof {
                        lemma_first_position(timeline_ids(views_of(timelines@)), id);
                    }
                    match direction {
                        MoveDirection::Up => {
                            if index != 0 {
                                let ghost v0 = views_of(timelines@);
                                assert(v0[index as int] == timelines@[index as int]@);
                                let pointers = take_pointers(timelines, index);
                                let ghost v1 = views_of(timelines@);
                                assert(views_of(timelines@).len() == timelines@.len());
                                assert(v1[index - 1] == timelines@[index - 1]@);
                                give_pointers(timelines, index - 1, pointers);
                                assert(views_of(timelines@) =~= hand_pointers(
                                    views_of(old(timelines)@),
                                    index as int,
                                    index - 1,
                                ));
                            } else {
                                let _ = take_pointers(timelines, index);
                            }
                        },
                        MoveDirection::Down => {
                            if index < timelines.len() - 1 {
                                let ghost v0 = views_of(timelines@);
                                assert(v0[index as int] == timelines@[index as int]@);
                                assert(index + 1 < v0.len());
                                let pointers = take_pointers(timelines, index);
                                let ghost v1 = views_of(timelines@);
                                assert(views_of(timelines@).len() == timelines@.len());
                                assert(v1.len() == v0.len());
                                assert(index + 1 < timelines.len());
                                assert(v1[index + 1] == timelines@[index + 1]@);
                                give_pointers(timelines, index + 1, pointers);
                                assert(views_of(timelines@) =~= hand_pointers(
                                    views_of(old(timelines)@),
                                    index as int,
                                    index + 1,
                                ));
                            } else {
                                let _ = take_pointers(timelines, index);
                            }
                        },
                        _ => {},
                    }
                },
                None => {},
            },
            Command::SpawnAt { id, instruction_start } => match find_timeline(timelines, id) {
                Some(index) => {
                    proof {
                        lemma_first_position(timeline_ids(views_of(timelines@)), id);
                    }
                    assert(index < timelines.len());
                    let new_timeline = timelines[index].clone_new_id(ids);
                    let t = &mut timelines[index];
                    t.instruction_pointer = instruction_start;
                    let ghost mid = views_of(timelines@);
                    assert(mid =~= views_of(old(timelines)@).update(
                        index as int,
                        with_instruction_pointer(old(timelines)@[index as int]@, instruction_start),
                    ));
                    assert(views_of(timelines@).len() == timelines@.len());
                    timelines.insert(index + 1, new_timeline);
                    assert(views_of(timelines@) =~= mid.insert(index + 1, new_timeline@));
                },
                None => {},
            },
            Command::RemoveAt(id) => match find_timeline(timelines, id) {
                Some(index) => {
                    proof {
                        lemma_first_position(timeline_ids(views_of(timelines@)), id);
                    }
                    if index != 0 {
                        let _ = timelines.remove(index);
                        assert(views_of(timelines@) =~= views_of(old(timelines)@).remove(
                            index as int,
                        ));
                    }
                },
                None => {},
            },
            Command::Nothing => {},
        }
    }
}

} // verus!
