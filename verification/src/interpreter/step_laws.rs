use vstd::prelude::*;

use super::laws::{iterate, law_map_cells_value, law_step_output_append_only};
use crate::model::{step_spec, update_all};
use super::types::{
    cell, cell_value, execute_spec, first_position, lemma_first_position, lemma_map_cells_frame,
    map_cells, meta_ids, pointer_count, scan_zero, timeline_ids, update_spec, wrapping_dec,
    wrapping_inc, Command, ContextView, TimelineView,
};
use crate::parser::types::{JumpType, MoveDirection, Token, UpdateType};

verus! {

// ---------------------------------------------------------------------------
// Helpers.
// ---------------------------------------------------------------------------

/// Whether every cell under `ps` holds 0 (a cell never touched holds 0).
pub open spec fn all_pointed_zero(t: TimelineView, ps: Seq<isize>) -> bool {
    forall|k: int| 0 <= k < ps.len() ==> cell_value(t, #[trigger] ps[k] as int) == 0
}

proof fn lemma_scan_zero(t: TimelineView, ps: Seq<isize>)
    ensures
        scan_zero(t, ps) == Some(true) ==> all_pointed_zero(t, ps),
        scan_zero(t, ps) == Some(false) ==> !all_pointed_zero(t, ps),
    decreases ps.len(),
{
    if ps.len() > 0 {
        lemma_scan_zero(t, ps.drop_first());
        match cell(t, ps[0] as int) {
            None => {},
            Some(v) => {
                if v == 0 {
                    if scan_zero(t, ps) == Some(true) {
                        assert forall|k: int| 0 <= k < ps.len() implies cell_value(
                            t,
                            #[trigger] ps[k] as int,
                        ) == 0 by {
                            if k > 0 {
                                assert(ps[k] == ps.drop_first()[k - 1]);
                            }
                        }
                    }
                    if scan_zero(t, ps) == Some(false) {
                        let w = choose|k: int|
                            0 <= k < ps.drop_first().len() && cell_value(
                                t,
                                #[trigger] ps.drop_first()[k] as int,
                            ) != 0;
                        assert(ps[w + 1] == ps.drop_first()[w]);
                    }
                } else {
                    assert(cell_value(t, ps[0] as int) != 0);
                }
            },
        }
    }
}

proof fn lemma_pointer_count_pos(ps: Seq<isize>, k: int)
    requires
        0 <= k < ps.len(),
    ensures
        pointer_count(ps, ps[k] as int) > 0,
    decreases ps.len(),
{
    if k < ps.len() - 1 {
        lemma_pointer_count_pos(ps.drop_last(), k);
        assert(ps.drop_last()[k] == ps[k]);
    }
}

proof fn lemma_iterate_const(x: u8, n: nat, v: u8)
    ensures
        iterate(|w: u8| x, n, v) == if n == 0 { v } else { x },
    decreases n,
{
    if n > 0 {
        lemma_iterate_const(x, (n - 1) as nat, v);
    }
}

proof fn lemma_iterate_inc(n: nat, v: u8)
    ensures
        iterate(|w: u8| wrapping_inc(w), n, v) as int == (v + n) % 256,
    decreases n,
{
    if n > 0 {
        lemma_iterate_inc((n - 1) as nat, v);
        let x = iterate(|w: u8| wrapping_inc(w), (n - 1) as nat, v);
        vstd::arithmetic::div_mod::lemma_add_mod_noop(v + n - 1, 1, 256);
        assert(wrapping_inc(x) as int == (x + 1) % 256);
    }
}

proof fn lemma_iterate_dec(n: nat, v: u8)
    ensures
        iterate(|w: u8| wrapping_dec(w), n, v) as int == (v - n) % 256,
    decreases n,
{
    if n > 0 {
        lemma_iterate_dec((n - 1) as nat, v);
        let x = iterate(|w: u8| wrapping_dec(w), (n - 1) as nat, v);
        vstd::arithmetic::div_mod::lemma_add_mod_noop(v - n + 1, -1, 256);
        assert(wrapping_dec(x) as int == (x - 1) % 256);
    } else {
        assert((v as int) % 256 == v as int);
    }
}

/// The first position holding `x` is the one named, if all before it differ.
proof fn lemma_first_position_is(s: Seq<usize>, x: usize, k: int)
    requires
        0 <= k < s.len(),
        s[k] == x,
        forall|j: int| 0 <= j < k ==> s[j] != x,
    ensures
        first_position(s, x) == Some(k),
{
    lemma_first_position(s, x);
}

// ---------------------------------------------------------------------------
// What each instruction does.
// ---------------------------------------------------------------------------

/// `[` jumps to its partner exactly when every cell under every pointer
/// holds 0, and `]` exactly when one of them does not; otherwise either
/// moves on by one. Neither touches the tape, the pointers, the input or the
/// output, and neither hands back a command.
pub proof fn law_step_jump(t: TimelineView, c: ContextView)
    requires
        t.instruction_pointer < c.tokens.len() <= usize::MAX,
        c.tokens[t.instruction_pointer as int] is Jump,
        update_spec(t, c) is Some,
    ensures
        ({
            let (t2, c2, cmd) = update_spec(t, c).unwrap();
            let ip = t.instruction_pointer;
            let zero = all_pointed_zero(t, t.pointers);
            &&& match c.tokens[ip as int] {
                Token::Jump { type_: JumpType::IfZero, index } => t2.instruction_pointer == if zero {
                    index as int
                } else {
                    ip + 1
                },
                Token::Jump { type_: JumpType::IfNotZero, index } => t2.instruction_pointer == if !zero {
                    index as int
                } else {
                    ip + 1
                },
                _ => false,
            }
            &&& t2.data == t.data
            &&& t2.data_backwards == t.data_backwards
            &&& t2.pointers == t.pointers
            &&& t2.id == t.id
            &&& c2 == c
            &&& cmd == Command::Nothing
        }),
{
    lemma_scan_zero(t, t.pointers);
}

/// `@` of the timeline at metadata position `k` (the first with its
/// identity) waits exactly when the timeline directly below it holds
/// pointers; with none below it moves on. It touches nothing else.
pub proof fn law_step_await(t: TimelineView, c: ContextView, k: int)
    requires
        t.instruction_pointer < c.tokens.len() <= usize::MAX,
        c.tokens[t.instruction_pointer as int] == Token::Await,
        0 <= k < c.metadata.len(),
        c.metadata[k].0 == t.id,
        forall|j: int| 0 <= j < k ==> c.metadata[j].0 != t.id,
    ensures
        update_spec(t, c) is Some,
        ({
            let (t2, c2, cmd) = update_spec(t, c).unwrap();
            let ip = t.instruction_pointer as int;
            &&& k + 1 < c.metadata.len() ==> (t2.instruction_pointer == ip <==> c.metadata[k
                + 1].1 != 0)
            &&& k + 1 < c.metadata.len() ==> (t2.instruction_pointer == ip + 1 <==> c.metadata[k
                + 1].1 == 0)
            &&& k + 1 >= c.metadata.len() ==> t2.instruction_pointer == ip + 1
            &&& t2.data == t.data
            &&& t2.data_backwards == t.data_backwards
            &&& t2.pointers == t.pointers
            &&& t2.id == t.id
            &&& c2 == c
            &&& cmd == Command::Nothing
        }),
{
    let ids = meta_ids(c.metadata);
    assert forall|j: int| 0 <= j < k implies ids[j] != t.id by {
        assert(ids[j] == c.metadata[j].0);
    }
    lemma_first_position_is(ids, t.id, k);
}

/// `<` moves every pointer one cell left and `>` every pointer one cell
/// right; the tape, the input and the output stay as they were.
pub proof fn law_step_move(t: TimelineView, c: ContextView)
    requires
        t.instruction_pointer < c.tokens.len() <= usize::MAX,
        c.tokens[t.instruction_pointer as int] == Token::Move(MoveDirection::Left)
            || c.tokens[t.instruction_pointer as int] == Token::Move(MoveDirection::Right),
        update_spec(t, c) is Some,
    ensures
        ({
            let (t2, c2, cmd) = update_spec(t, c).unwrap();
            let delta: int = if c.tokens[t.instruction_pointer as int] == Token::Move(
                MoveDirection::Left,
            ) {
                -1
            } else {
                1
            };
            &&& t2.pointers.len() == t.pointers.len()
            &&& forall|k: int|
                0 <= k < t.pointers.len() ==> #[trigger] t2.pointers[k] == t.pointers[k] + delta
            &&& t2.data == t.data
            &&& t2.data_backwards == t.data_backwards
            &&& t2.instruction_pointer == t.instruction_pointer + 1
            &&& t2.id == t.id
            &&& c2 == c
            &&& cmd == Command::Nothing
        }),
{
}

/// `+` adds to each cell, modulo 256, the number of pointers at it, and `-`
/// takes it away; the pointers, the input and the output stay as they were.
pub proof fn law_step_update_cells(t: TimelineView, c: ContextView, j: int)
    requires
        t.instruction_pointer < c.tokens.len() <= usize::MAX,
        c.tokens[t.instruction_pointer as int] is Update,
    ensures
        update_spec(t, c) is Some,
        ({
            let (t2, c2, cmd) = update_spec(t, c).unwrap();
            let n = pointer_count(t.pointers, j);
            &&& c.tokens[t.instruction_pointer as int] == Token::Update(UpdateType::Increment)
                ==> cell_value(t2, j) as int == (cell_value(t, j) + n) % 256
            &&& c.tokens[t.instruction_pointer as int] == Token::Update(UpdateType::Decrement)
                ==> cell_value(t2, j) as int == (cell_value(t, j) - n) % 256
            &&& t2.pointers == t.pointers
            &&& t2.instruction_pointer == t.instruction_pointer + 1
            &&& t2.id == t.id
            &&& c2 == c
            &&& cmd == Command::Nothing
        }),
{
    let inc = |w: u8| wrapping_inc(w);
    let dec = |w: u8| wrapping_dec(w);
    lemma_map_cells_frame(t, t.pointers, inc);
    lemma_map_cells_frame(t, t.pointers, dec);
    law_map_cells_value(t, t.pointers, inc, j);
    law_map_cells_value(t, t.pointers, dec, j);
    lemma_iterate_inc(pointer_count(t.pointers, j), cell_value(t, j));
    lemma_iterate_dec(pointer_count(t.pointers, j), cell_value(t, j));
}

/// `,` takes the first input character and stores it (as a byte) in the
/// cell under every pointer; cells under no pointer keep their value, and
/// the input loses exactly that character.
pub proof fn law_step_read(t: TimelineView, c: ContextView)
    requires
        t.instruction_pointer < c.tokens.len() <= usize::MAX,
        c.tokens[t.instruction_pointer as int] == Token::Read,
        c.program_input.len() > 0,
    ensures
        update_spec(t, c) is Some,
        ({
            let (t2, c2, cmd) = update_spec(t, c).unwrap();
            &&& forall|k: int|
                0 <= k < t.pointers.len() ==> cell_value(t2, #[trigger] t.pointers[k] as int)
                    == c.program_input[0] as u8
            &&& forall|j: int|
                pointer_count(t.pointers, j) == 0 ==> #[trigger] cell_value(t2, j) == cell_value(
                    t,
                    j,
                )
            &&& c2.program_input == c.program_input.drop_first()
            &&& c2.program_output == c.program_output
            &&& c2.tokens == c.tokens
            &&& t2.pointers == t.pointers
            &&& t2.instruction_pointer == t.instruction_pointer + 1
            &&& t2.id == t.id
            &&& cmd == Command::Nothing
        }),
{
    let ch = c.program_input[0];
    let f = |w: u8| ch as u8;
    lemma_map_cells_frame(t, t.pointers, f);
    assert forall|k: int| 0 <= k < t.pointers.len() implies cell_value(
        update_spec(t, c).unwrap().0,
        #[trigger] t.pointers[k] as int,
    ) == ch as u8 by {
        law_map_cells_value(t, t.pointers, f, t.pointers[k] as int);
        lemma_pointer_count_pos(t.pointers, k);
        lemma_iterate_const(ch as u8, pointer_count(t.pointers, t.pointers[k] as int), cell_value(t, t.pointers[k] as int));
    }
    assert forall|j: int| pointer_count(t.pointers, j) == 0 implies #[trigger] cell_value(
        update_spec(t, c).unwrap().0,
        j,
    ) == cell_value(t, j) by {
        law_map_cells_value(t, t.pointers, f, j);
    }
}

/// `.` appends to the output, for each pointer in order, the character of
/// the byte under it; nothing else changes.
pub proof fn law_step_write(t: TimelineView, c: ContextView)
    requires
        t.instruction_pointer < c.tokens.len() <= usize::MAX,
        c.tokens[t.instruction_pointer as int] == Token::Write,
        update_spec(t, c) is Some,
    ensures
        ({
            let (t2, c2, cmd) = update_spec(t, c).unwrap();
            let n = c.program_output.len();
            &&& c2.program_output.len() == n + t.pointers.len()
            &&& c2.program_output.take(n as int) == c.program_output
            &&& forall|k: int|
                0 <= k < t.pointers.len() ==> #[trigger] c2.program_output[n + k] == cell_value(
                    t,
                    t.pointers[k] as int,
                ) as char
            &&& c2.program_input == c.program_input
            &&& t2.data == t.data
            &&& t2.data_backwards == t.data_backwards
            &&& t2.pointers == t.pointers
            &&& t2.instruction_pointer == t.instruction_pointer + 1
            &&& cmd == Command::Nothing
        }),
{
    let (t2, c2, cmd) = update_spec(t, c).unwrap();
    assert(c2.program_output.take(c.program_output.len() as int) =~= c.program_output);
}

/// The commands instructions hand back: `)` asks to remove its timeline,
/// `^` and `v` to move its pointers up or down, `(` to spawn a copy that
/// starts after the matching `)`; a timeline past the end of the program
/// asks to be removed.
pub proof fn law_step_commands(t: TimelineView, c: ContextView)
    requires
        c.tokens.len() <= usize::MAX,
        update_spec(t, c) is Some,
    ensures
        ({
            let cmd = update_spec(t, c).unwrap().2;
            let ip = t.instruction_pointer as int;
            &&& ip >= c.tokens.len() ==> cmd == Command::RemoveAt(t.id)
            &&& ip < c.tokens.len() ==> match c.tokens[ip] {
                Token::Kill => cmd == Command::RemoveAt(t.id),
                Token::Move(MoveDirection::Up) => cmd == Command::MovePointer {
                    id: t.id,
                    direction: MoveDirection::Up,
                },
                Token::Move(MoveDirection::Down) => cmd == Command::MovePointer {
                    id: t.id,
                    direction: MoveDirection::Down,
                },
                Token::Spawn { index } => cmd == Command::SpawnAt {
                    id: t.id,
                    instruction_start: index,
                },
                _ => cmd == Command::Nothing,
            }
        }),
{
}

// ---------------------------------------------------------------------------
// What each command does.
// ---------------------------------------------------------------------------

/// Spawning from the timeline at `idx` (the first with the identity) puts
/// just below it a timeline with the fresh identity and the same tape,
/// pointers and instruction pointer as the spawner had; the spawner goes on
/// at `instruction_start`; every other timeline keeps its place in order.
pub proof fn law_execute_spawn(
    ts: Seq<TimelineView>,
    id: usize,
    instruction_start: usize,
    next: usize,
    idx: int,
)
    requires
        0 <= idx < ts.len(),
        ts[idx].id == id,
        forall|j: int| 0 <= j < idx ==> ts[j].id != id,
        next < usize::MAX,
    ensures
        execute_spec(ts, Command::SpawnAt { id, instruction_start }, next) is Some,
        ({
            let (ts2, n2) = execute_spec(ts, Command::SpawnAt { id, instruction_start }, next).unwrap();
            &&& n2 == next + 1
            &&& ts2.len() == ts.len() + 1
            &&& ts2[idx + 1].id == next
            &&& ts2[idx + 1].data == ts[idx].data
            &&& ts2[idx + 1].data_backwards == ts[idx].data_backwards
            &&& ts2[idx + 1].pointers == ts[idx].pointers
            &&& ts2[idx + 1].instruction_pointer == ts[idx].instruction_pointer
            &&& ts2[idx].id == ts[idx].id
            &&& ts2[idx].data == ts[idx].data
            &&& ts2[idx].data_backwards == ts[idx].data_backwards
            &&& ts2[idx].pointers == ts[idx].pointers
            &&& ts2[idx].instruction_pointer == instruction_start
            &&& forall|j: int| 0 <= j < idx ==> #[trigger] ts2[j] == ts[j]
            &&& forall|j: int| idx + 1 < j < ts2.len() ==> #[trigger] ts2[j] == ts[j - 1]
        }),
{
    let ids = timeline_ids(ts);
    assert forall|j: int| 0 <= j < idx implies ids[j] != id by {}
    lemma_first_position_is(ids, id, idx);
}

/// Moving the pointers of the timeline at `idx` (the first with the
/// identity) to the timeline at `to` (the one above for `^`, below for
/// `v`) empties its pointers and puts them, in order, after those of `to`;
/// nothing else changes.
pub proof fn law_execute_move_pointer(
    ts: Seq<TimelineView>,
    id: usize,
    direction: MoveDirection,
    next: usize,
    idx: int,
)
    requires
        0 <= idx < ts.len(),
        ts[idx].id == id,
        forall|j: int| 0 <= j < idx ==> ts[j].id != id,
        direction == MoveDirection::Up ==> idx > 0,
        direction == MoveDirection::Down ==> idx + 1 < ts.len(),
        direction == MoveDirection::Up || direction == MoveDirection::Down,
    ensures
        execute_spec(ts, Command::MovePointer { id, direction }, next) is Some,
        ({
            let (ts2, n2) = execute_spec(ts, Command::MovePointer { id, direction }, next).unwrap();
            let to = if direction == MoveDirection::Up { idx - 1 } else { idx + 1 };
            &&& n2 == next
            &&& ts2.len() == ts.len()
            &&& ts2[idx].pointers == Seq::<isize>::empty()
            &&& ts2[to].pointers == ts[to].pointers + ts[idx].pointers
            &&& forall|j: int|
                0 <= j < ts.len() ==> (#[trigger] ts2[j]).id == ts[j].id && ts2[j].data
                    == ts[j].data && ts2[j].data_backwards == ts[j].data_backwards
                    && ts2[j].instruction_pointer == ts[j].instruction_pointer
            &&& forall|j: int| 0 <= j < ts.len() && j != idx && j != to ==> #[trigger] ts2[j] == ts[j]
        }),
{
    let ids = timeline_ids(ts);
    assert forall|j: int| 0 <= j < idx implies ids[j] != id by {}
    lemma_first_position_is(ids, id, idx);
}

/// Removing the timeline at `idx` (the first with the identity) takes
/// exactly it out, unless it is the first timeline, which stays.
pub proof fn law_execute_remove(ts: Seq<TimelineView>, id: usize, next: usize, idx: int)
    requires
        0 <= idx < ts.len(),
        ts[idx].id == id,
        forall|j: int| 0 <= j < idx ==> ts[j].id != id,
    ensures
        execute_spec(ts, Command::RemoveAt(id), next) is Some,
        ({
            let (ts2, n2) = execute_spec(ts, Command::RemoveAt(id), next).unwrap();
            &&& n2 == next
            &&& idx == 0 ==> ts2 == ts
            &&& idx > 0 ==> {
                &&& ts2.len() == ts.len() - 1
                &&& forall|j: int| 0 <= j < idx ==> #[trigger] ts2[j] == ts[j]
                &&& forall|j: int| idx <= j < ts2.len() ==> #[trigger] ts2[j] == ts[j + 1]
            }
        }),
{
    let ids = timeline_ids(ts);
    assert forall|j: int| 0 <= j < idx implies ids[j] != id by {}
    lemma_first_position_is(ids, id, idx);
}


proof fn lemma_update_all_keeps(c: ContextView, ts: Seq<TimelineView>)
    requires
        update_all(c, ts) is Some,
    ensures
        ({
            let (c1, ts1, cmds) = update_all(c, ts).unwrap();
            &&& c1.metadata == c.metadata
            &&& c1.total_timelines == c.total_timelines
            &&& c1.tokens == c.tokens
            &&& c1.raw_program == c.raw_program
            &&& ts1.len() == ts.len()
            &&& cmds.len() == ts.len()
        }),
    decreases ts.len(),
{
    if ts.len() > 0 {
        lemma_update_all_keeps(c, ts.drop_last());
        let (c1, ts1, cmds) = update_all(c, ts.drop_last()).unwrap();
        law_step_output_append_only(ts.last(), c1);
    }
}

/// During a step of the whole program every timeline sees the identity and
/// pointer count of every timeline as they were when the step began, in
/// order; the program is not changed.
pub proof fn law_step_program_metadata(c: ContextView, ts: Seq<TimelineView>, next: usize)
    requires
        step_spec(c, ts, next) is Some,
        ts.len() <= usize::MAX,
    ensures
        ({
            let (c2, ts2, n2) = step_spec(c, ts, next).unwrap();
            &&& c2.total_timelines == ts.len()
            &&& c2.metadata.len() == ts.len()
            &&& forall|k: int|
                0 <= k < ts.len() ==> #[trigger] c2.metadata[k] == (
                    ts[k].id,
                    ts[k].pointers.len() as usize,
                )
            &&& c2.tokens == c.tokens
            &&& c2.raw_program == c.raw_program
        }),
{
    let c0 = super::types::with_metadata(c, ts);
    lemma_update_all_keeps(c0, ts);
}

} // verus!
