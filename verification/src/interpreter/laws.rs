use vstd::prelude::*;

use super::types::{
    act_on_data, cell, cell_value, execute_spec, first_position, grow, lemma_first_position,
    lemma_map_cells_frame, map_cells, next_instruction, pointer_count, set_cell, shift_pointers,
    tape_index, timeline_ids, update_spec, wrapping_dec, wrapping_inc, Command, ContextView,
    TimelineView,
};
use crate::model::{execute_all, step_spec, update_all};
use crate::parser::bf5d::{
    law_parse_keeps_instructions, law_parse_links_partners, lemma_lex_from, parse_outcome,
};
use crate::parser::types::{JumpType, MoveDirection, Token, UpdateType};

verus! {

// ---------------------------------------------------------------------------
// The tape.
// ---------------------------------------------------------------------------

/// Each cell of the tape has a place of its own: two indices with the same
/// sign and the same place in their half are the same index.
pub proof fn law_tape_places_distinct(i: int, j: int)
    requires
        (i < 0) == (j < 0),
        tape_index(i) == tape_index(j),
    ensures
        i == j,
{
}

proof fn lemma_grow(s: Seq<u8>, k: int, m: int)
    requires
        0 <= k,
        0 <= m < grow(s, k).len(),
    ensures
        grow(s, k).len() == if k < s.len() { s.len() as int } else { k + 1 },
        grow(s, k)[m] == if m < s.len() { s[m] } else { 0u8 },
{
}

/// What a write to a cell does: the cell then holds the value written, and
/// every other cell keeps its value and stays touched if it was.
pub proof fn law_set_cell(t: TimelineView, i: int, v: u8, j: int)
    ensures
        cell(set_cell(t, i, v), i) == Some(v),
        j != i ==> cell_value(set_cell(t, i, v), j) == cell_value(t, j),
        j != i ==> (cell(t, j) is Some ==> cell(set_cell(t, i, v), j) == cell(t, j)),
        set_cell(t, i, v).pointers == t.pointers,
        set_cell(t, i, v).id == t.id,
        set_cell(t, i, v).instruction_pointer == t.instruction_pointer,
{
    let k = tape_index(i);
    let m = tape_index(j);
    if (i < 0) == (j < 0) && j != i {
        if i < 0 {
            let g = grow(t.data_backwards, k);
            if 0 <= m < g.len() {
                lemma_grow(t.data_backwards, k, m);
            }
        } else {
            let g = grow(t.data, k);
            if 0 <= m < g.len() {
                lemma_grow(t.data, k, m);
            }
        }
    }
}

/// `f` applied `n` times to `v`.
pub open spec fn iterate(f: spec_fn(u8) -> u8, n: nat, v: u8) -> u8
    decreases n,
{
    if n == 0 {
        v
    } else {
        f(iterate(f, (n - 1) as nat, v))
    }
}

/// Applying `f` under each of `ps` applies it to a cell once for each
/// pointer at it.
pub proof fn law_map_cells_value(t: TimelineView, ps: Seq<isize>, f: spec_fn(u8) -> u8, j: int)
    ensures
        cell_value(map_cells(t, ps, f), j) == iterate(f, pointer_count(ps, j), cell_value(t, j)),
    decreases ps.len(),
{
    if ps.len() > 0 {
        law_map_cells_value(t, ps.drop_last(), f, j);
        let t1 = map_cells(t, ps.drop_last(), f);
        law_set_cell(t1, ps.last() as int, f(cell_value(t1, ps.last() as int)), j);
    }
}

proof fn lemma_iterate_shift(f: spec_fn(u8) -> u8, n: nat, v: u8)
    requires
        n > 0,
    ensures
        iterate(f, n, v) == iterate(f, (n - 1) as nat, f(v)),
    decreases n,
{
    if n > 1 {
        lemma_iterate_shift(f, (n - 1) as nat, v);
        assert(iterate(f, (n - 1) as nat, f(v)) == f(iterate(f, (n - 2) as nat, f(v))));
    } else {
        assert(iterate(f, 0, f(v)) == f(v));
        assert(iterate(f, 1, v) == f(iterate(f, 0, v)));
    }
}

proof fn lemma_dec_undoes_inc(n: nat, v: u8)
    ensures
        iterate(|x: u8| wrapping_dec(x), n, iterate(|x: u8| wrapping_inc(x), n, v)) == v,
    decreases n,
{
    if n > 0 {
        let inc = |x: u8| wrapping_inc(x);
        let dec = |x: u8| wrapping_dec(x);
        let y = iterate(inc, (n - 1) as nat, v);
        lemma_iterate_shift(dec, n, inc(y));
        assert(dec(inc(y)) == y);
        lemma_dec_undoes_inc((n - 1) as nat, v);
    }
}

/// `-` under the same pointers undoes `+`: every cell is back to its value.
pub proof fn law_decrement_undoes_increment(t: TimelineView, ps: Seq<isize>, j: int)
    ensures
        cell_value(
            map_cells(map_cells(t, ps, |x: u8| wrapping_inc(x)), ps, |x: u8| wrapping_dec(x)),
            j,
        ) == cell_value(t, j),
{
    let inc = |x: u8| wrapping_inc(x);
    let dec = |x: u8| wrapping_dec(x);
    law_map_cells_value(t, ps, inc, j);
    law_map_cells_value(map_cells(t, ps, inc), ps, dec, j);
    lemma_dec_undoes_inc(pointer_count(ps, j), cell_value(t, j));
}

/// Moving every pointer left and then right puts each back where it was.
pub proof fn law_right_undoes_left(ps: Seq<isize>)
    requires
        shift_pointers(ps, -1) is Some,
    ensures
        shift_pointers(shift_pointers(ps, -1)->0, 1) == Some(ps),
{
    let left = shift_pointers(ps, -1)->0;
    assert forall|k: int| 0 <= k < left.len() implies isize::MIN <= #[trigger] left[k] + 1
        <= isize::MAX by {
        assert(isize::MIN <= ps[k] - 1 <= isize::MAX);
    }
    assert(shift_pointers(left, 1)->0 =~= ps);
}

// ---------------------------------------------------------------------------
// One step of a timeline.
// ---------------------------------------------------------------------------

/// A step never changes the program, the metadata or the timeline's
/// identity; output is only ever appended to, and input only ever taken
/// from the front.
pub proof fn law_step_output_append_only(t: TimelineView, c: ContextView)
    requires
        update_spec(t, c) is Some,
    ensures
        ({
            let (t2, c2, _) = update_spec(t, c)->0;
            &&& c.program_output.is_prefix_of(c2.program_output)
            &&& c2.program_input.len() <= c.program_input.len()
            &&& c2.program_input == c.program_input.skip(
                c.program_input.len() - c2.program_input.len(),
            )
            &&& c2.tokens == c.tokens
            &&& c2.raw_program == c.raw_program
            &&& c2.metadata == c.metadata
            &&& c2.total_timelines == c.total_timelines
            &&& t2.id == t.id
        }),
{
    let (t2, c2, _) = update_spec(t, c)->0;
    assert(c.program_input.skip(0) =~= c.program_input);
    if t.instruction_pointer < c.tokens.len() {
        let action = c.tokens[t.instruction_pointer as int];
        lemma_map_cells_frame(t, t.pointers, |v: u8| wrapping_inc(v));
        lemma_map_cells_frame(t, t.pointers, |v: u8| wrapping_dec(v));
        if action is Read {
            let ch = c.program_input[0];
            lemma_map_cells_frame(t, t.pointers, |v: u8| ch as u8);
            assert(c.program_input.skip(1) =~= c.program_input.drop_first());
        }
        if action is Write {
            assert(c.program_output.is_prefix_of(c2.program_output));
        }
    }
}

/// `+` followed by `-` gives every cell its value back and leaves the
/// pointers, the input and the output as they were.
pub proof fn law_step_decrement_undoes_increment(t: TimelineView, c: ContextView, j: int)
    requires
        t.instruction_pointer + 1 < c.tokens.len() <= usize::MAX,
        c.tokens[t.instruction_pointer as int] == Token::Update(UpdateType::Increment),
        c.tokens[t.instruction_pointer + 1] == Token::Update(UpdateType::Decrement),
    ensures
        update_spec(t, c) is Some,
        ({
            let (t1, c1, _) = update_spec(t, c)->0;
            &&& update_spec(t1, c1) is Some
            &&& ({
                let (t2, c2, _) = update_spec(t1, c1)->0;
                &&& cell_value(t2, j) == cell_value(t, j)
                &&& t2.pointers == t.pointers
                &&& t2.instruction_pointer == t.instruction_pointer + 2
                &&& c2 == c
            })
        }),
{
    let inc = |x: u8| wrapping_inc(x);
    let dec = |x: u8| wrapping_dec(x);
    let ps = t.pointers;
    lemma_map_cells_frame(t, ps, inc);
    let m = map_cells(t, ps, inc);
    let t1 = TimelineView { instruction_pointer: (t.instruction_pointer + 1) as usize, ..m };
    assert(update_spec(t, c) == Some((t1, c, Command::Nothing)));
    assert(t1.pointers == ps);
    assert(c.tokens[t1.instruction_pointer as int] == Token::Update(UpdateType::Decrement));
    lemma_map_cells_frame(t1, ps, dec);
    let m2 = map_cells(t1, ps, dec);
    assert(act_on_data(t1, c, Token::Update(UpdateType::Decrement)) == Some((m2, c)));
    assert(next_instruction(m2, c, Token::Update(UpdateType::Decrement), t1.instruction_pointer)
        == Some((t.instruction_pointer + 2) as usize));
    let t2 = TimelineView { instruction_pointer: (t.instruction_pointer + 2) as usize, ..m2 };
    assert(update_spec(t1, c) == Some((t2, c, Command::Nothing)));
    law_map_cells_value(t, ps, inc, j);
    law_map_cells_value(t1, ps, dec, j);
    assert(cell_value(t1, j) == cell_value(m, j));
    assert(cell_value(t2, j) == cell_value(m2, j));
    lemma_dec_undoes_inc(pointer_count(ps, j), cell_value(t, j));
}

/// In a parsed program a jump lands on its partner: a step at a `[` or
/// `]` either moves on by one or goes to the matching bracket, which points
/// back at the jump.
pub proof fn law_jump_lands_on_partner(s: Seq<char>, t: TimelineView, c: ContextView)
    requires
        parse_outcome(s) == Some(Ok::<Seq<Token>, (Seq<char>, usize)>(c.tokens)),
        s.len() < usize::MAX,
        t.instruction_pointer < c.tokens.len(),
        c.tokens[t.instruction_pointer as int] is Jump,
        update_spec(t, c) is Some,
    ensures
        ({
            let k = t.instruction_pointer;
            let t2 = update_spec(t, c).unwrap().0;
            match c.tokens[k as int] {
                Token::Jump { type_: JumpType::IfZero, index } => (t2.instruction_pointer == k + 1
                    || t2.instruction_pointer == index) && k < index < c.tokens.len()
                    && c.tokens[index as int] == Token::Jump { type_: JumpType::IfNotZero, index: k },
                Token::Jump { type_: JumpType::IfNotZero, index } => (t2.instruction_pointer == k
                    + 1 || t2.instruction_pointer == index) && index < k && c.tokens[index as int]
                    == Token::Jump { type_: JumpType::IfZero, index: k },
                _ => false,
            }
        }),
{
    law_parse_links_partners(s, c.tokens);
    law_parse_keeps_instructions(s, c.tokens);
    lemma_lex_from(s, 0);
    let k = t.instruction_pointer as int;
    let action = c.tokens[k];
    assert(act_on_data(t, c, action) == Some((t, c)));
    let t2 = update_spec(t, c).unwrap().0;
    match action {
        Token::Jump { type_: _, index } => {
            assert(t2.instruction_pointer == next_instruction(
                t,
                c,
                action,
                t.instruction_pointer,
            )->0);
        },
        _ => {},
    }
}

// ---------------------------------------------------------------------------
// The set of timelines.
// ---------------------------------------------------------------------------

/// No two timelines share an identity.
pub open spec fn ids_unique(ts: Seq<TimelineView>) -> bool {
    forall|a: int, b: int| 0 <= a < b < ts.len() ==> #[trigger] ts[a].id != #[trigger] ts[b].id
}

/// Every identity in use was handed out before `next`.
pub open spec fn ids_below(ts: Seq<TimelineView>, next: usize) -> bool {
    forall|a: int| 0 <= a < ts.len() ==> #[trigger] ts[a].id < next
}

/// Carrying out a command keeps identities unique and below the next fresh
/// one, and never hands out an identity twice.
pub proof fn law_execute_keeps_ids_unique(
    ts: Seq<TimelineView>,
    command: Command,
    next: usize,
)
    requires
        ids_unique(ts),
        ids_below(ts, next),
        execute_spec(ts, command, next) is Some,
    ensures
        ids_unique(execute_spec(ts, command, next).unwrap().0),
        ids_below(execute_spec(ts, command, next).unwrap().0, execute_spec(ts, command, next).unwrap().1),
        next <= execute_spec(ts, command, next).unwrap().1,
{
    let (ts2, n2) = execute_spec(ts, command, next)->0;
    match command {
        Command::Nothing => {},
        Command::MovePointer { id, direction } => {
            lemma_first_position(timeline_ids(ts), id);
            assert(ts2.len() == ts.len());
            assert forall|a: int| 0 <= a < ts2.len() implies #[trigger] ts2[a].id == ts[a].id by {}
        },
        Command::SpawnAt { id, instruction_start } => {
            lemma_first_position(timeline_ids(ts), id);
            let idx = first_position(timeline_ids(ts), id)->0;
            assert forall|a: int, b: int| 0 <= a < b < ts2.len() implies #[trigger] ts2[a].id
                != #[trigger] ts2[b].id by {
                if a <= idx {
                    if b == idx + 1 {
                        assert(ts[a].id < next);
                    } else if b > idx + 1 {
                        assert(ts2[b] == ts[b - 1]);
                        if a < b - 1 {
                            assert(ts[a].id != ts[b - 1].id);
                        }
                    }
                } else if a == idx + 1 {
                    assert(ts2[b] == ts[b - 1]);
                    assert(ts[b - 1].id < next);
                } else {
                    assert(ts2[a] == ts[a - 1]);
                    assert(ts2[b] == ts[b - 1]);
                    assert(ts[a - 1].id != ts[b - 1].id);
                }
            }
            assert forall|a: int| 0 <= a < ts2.len() implies #[trigger] ts2[a].id < n2 by {
                if a > idx + 1 {
                    assert(ts2[a] == ts[a - 1]);
                }
            }
        },
        Command::RemoveAt(id) => {
            lemma_first_position(timeline_ids(ts), id);
            let idx = first_position(timeline_ids(ts), id)->0;
            if idx != 0 {
                assert forall|a: int, b: int| 0 <= a < b < ts2.len() implies #[trigger] ts2[a].id
                    != #[trigger] ts2[b].id by {
                    let a0 = if a < idx { a } else { a + 1 };
                    let b0 = if b < idx { b } else { b + 1 };
                    assert(ts2[a] == ts[a0]);
                    assert(ts2[b] == ts[b0]);
                    assert(ts[a0].id != ts[b0].id);
                }
                assert forall|a: int| 0 <= a < ts2.len() implies #[trigger] ts2[a].id < n2 by {
                    let a0 = if a < idx { a } else { a + 1 };
                    assert(ts2[a] == ts[a0]);
                }
            }
        },
    }
}

/// Carrying out a command never takes away the first timeline.
pub proof fn law_execute_keeps_first_timeline(
    ts: Seq<TimelineView>,
    command: Command,
    next: usize,
)
    requires
        ts.len() > 0,
        execute_spec(ts, command, next) is Some,
    ensures
        execute_spec(ts, command, next).unwrap().0.len() > 0,
        execute_spec(ts, command, next).unwrap().0[0].id == ts[0].id,
{
    match command {
        Command::MovePointer { id, direction: _ } => {
            lemma_first_position(timeline_ids(ts), id);
        },
        Command::SpawnAt { id, instruction_start: _ } => {
            lemma_first_position(timeline_ids(ts), id);
        },
        Command::RemoveAt(id) => {
            lemma_first_position(timeline_ids(ts), id);
        },
        Command::Nothing => {},
    }
}

/// The number of pointers over all timelines.
pub open spec fn total_pointers(ts: Seq<TimelineView>) -> nat
    decreases ts.len(),
{
    if ts.len() == 0 {
        0
    } else {
        total_pointers(ts.drop_last()) + ts.last().pointers.len()
    }
}

proof fn lemma_total_pointers_update(ts: Seq<TimelineView>, k: int, x: TimelineView)
    requires
        0 <= k < ts.len(),
    ensures
        total_pointers(ts.update(k, x)) + ts[k].pointers.len() == total_pointers(ts)
            + x.pointers.len(),
    decreases ts.len(),
{
    if k < ts.len() - 1 {
        lemma_total_pointers_update(ts.drop_last(), k, x);
        assert(ts.update(k, x).drop_last() =~= ts.drop_last().update(k, x));
    } else {
        assert(ts.update(k, x).drop_last() =~= ts.drop_last());
    }
}

/// Moving pointers to a timeline that exists hands them over whole: the
/// number of pointers over all timelines stays the same. Only a move up from
/// the first timeline, or down from a lone one, drops them.
pub proof fn law_move_pointer_keeps_pointer_count(
    ts: Seq<TimelineView>,
    id: usize,
    direction: MoveDirection,
    next: usize,
)
    requires
        execute_spec(ts, Command::MovePointer { id, direction }, next) is Some,
        direction == MoveDirection::Up ==> first_position(timeline_ids(ts), id) != Some(0int),
        direction == MoveDirection::Down ==> ts.len() > 1,
    ensures
        total_pointers(execute_spec(ts, Command::MovePointer { id, direction }, next).unwrap().0)
            == total_pointers(ts),
{
    lemma_first_position(timeline_ids(ts), id);
    let idx = first_position(timeline_ids(ts), id)->0;
    let to = if direction == MoveDirection::Up { idx - 1 } else { idx + 1 };
    let x = TimelineView { pointers: ts[to].pointers + ts[idx].pointers, ..ts[to] };
    let ts1 = ts.update(to, x);
    lemma_total_pointers_update(ts, to, x);
    lemma_total_pointers_update(ts1, idx, TimelineView { pointers: seq![], ..ts[idx] });
}

// ---------------------------------------------------------------------------
// One step of the whole program.
// ---------------------------------------------------------------------------

proof fn lemma_update_all_ids(c: ContextView, ts: Seq<TimelineView>)
    requires
        update_all(c, ts) is Some,
    ensures
        update_all(c, ts).unwrap().1.len() == ts.len(),
        forall|k: int|
            0 <= k < ts.len() ==> (#[trigger] update_all(c, ts).unwrap().1[k]).id == ts[k].id,
    decreases ts.len(),
{
    if ts.len() > 0 {
        lemma_update_all_ids(c, ts.drop_last());
        let (c1, ts1, cmds) = update_all(c, ts.drop_last())->0;
        law_step_output_append_only(ts.last(), c1);
    }
}

proof fn lemma_execute_all_ids(ts: Seq<TimelineView>, cmds: Seq<Command>, next: usize)
    requires
        ids_unique(ts),
        ids_below(ts, next),
        execute_all(ts, cmds, next) is Some,
    ensures
        ids_unique(execute_all(ts, cmds, next).unwrap().0),
        ids_below(execute_all(ts, cmds, next).unwrap().0, execute_all(ts, cmds, next).unwrap().1),
        ts.len() > 0 ==> execute_all(ts, cmds, next).unwrap().0.len() > 0
            && execute_all(ts, cmds, next).unwrap().0[0].id == ts[0].id,
    decreases cmds.len(),
{
    if cmds.len() > 0 {
        lemma_execute_all_ids(ts, cmds.drop_last(), next);
        let (ts1, n1) = execute_all(ts, cmds.drop_last(), next)->0;
        law_execute_keeps_ids_unique(ts1, cmds.last(), n1);
        if ts.len() > 0 {
            law_execute_keeps_first_timeline(ts1, cmds.last(), n1);
        }
    }
}

/// A step of the whole program keeps the identities of the timelines
/// unique and below the next fresh one, and keeps the first timeline first.
pub proof fn law_step_keeps_ids_unique(c: ContextView, ts: Seq<TimelineView>, next: usize)
    requires
        ids_unique(ts),
        ids_below(ts, next),
        step_spec(c, ts, next) is Some,
    ensures
        ids_unique(step_spec(c, ts, next).unwrap().1),
        ids_below(step_spec(c, ts, next).unwrap().1, step_spec(c, ts, next).unwrap().2),
        ts.len() > 0 ==> step_spec(c, ts, next).unwrap().1.len() > 0 && step_spec(c, ts, next).unwrap().1[0].id
            == ts[0].id,
{
    let c0 = super::types::with_metadata(c, ts);
    lemma_update_all_ids(c0, ts);
    let (c1, ts1, cmds) = update_all(c0, ts)->0;
    assert(ids_unique(ts1));
    assert(ids_below(ts1, next));
    lemma_execute_all_ids(ts1, cmds, next);
}

} // verus!
