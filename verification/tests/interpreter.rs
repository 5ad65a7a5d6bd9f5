use bf5d::interpreter::types::{
    backwards_index, cell_layout, find_timeline, BF5DContext, Command, IdGen, Timeline,
};
use bf5d::model::{load_program, reset_program, step_program};
use bf5d::parser::bf5d::parse;
use bf5d::parser::types::{MoveDirection, Token};

fn context_for(program: &str, input: &str) -> BF5DContext {
    let mut c = BF5DContext::new();
    c.raw_program = program.to_string();
    c.tokens = parse(program).unwrap();
    c.program_input = input.to_string();
    c
}

/// Runs the timeline until its instruction pointer reaches `ip`,
/// collecting metadata for it alone before each step.
fn run_alone(t: &mut Timeline, c: &mut BF5DContext, steps: usize) -> Vec<Command> {
    let mut cmds = vec![];
    for _ in 0..steps {
        let ts = vec![t.clone()];
        c.collect_timeline_metadata(&ts);
        assert!(t.can_update(c));
        let (_, cmd) = t.update(c);
        cmds.push(cmd);
    }
    cmds
}

#[test]
fn backwards_index_places_cells() {
    assert_eq!(backwards_index(-1), 0);
    assert_eq!(backwards_index(-3), 2);
    assert_eq!(backwards_index(0), 0);
    assert_eq!(backwards_index(5), 5);
    assert_eq!(backwards_index(isize::MIN), isize::MAX as usize);
}

#[test]
fn id_gen_hands_out_each_id_once() {
    let mut ids = IdGen::new();
    assert_eq!(ids.fresh(), 0);
    assert_eq!(ids.fresh(), 1);
    assert_eq!(ids.next, 2);
}

#[test]
fn timeline_new_and_clone_new_id() {
    let mut ids = IdGen::new();
    let t = Timeline::new(&mut ids);
    assert_eq!(t.id, 0);
    assert_eq!(t.data, vec![0]);
    assert!(t.data_backwards.is_empty());
    assert_eq!(t.pointers, vec![0]);
    assert_eq!(t.instruction_pointer, 0);
    let t2 = Timeline::new(&mut ids);
    assert_eq!(t2.id, 1);
    let mut t3 = t.clone();
    t3.data = vec![1, 2];
    t3.instruction_pointer = 4;
    let c = t3.clone_new_id(&mut ids);
    assert_eq!(c.id, 2);
    assert_eq!(c.data, vec![1, 2]);
    assert_eq!(c.pointers, t3.pointers);
    assert_eq!(c.instruction_pointer, 4);
}

#[test]
fn data_at_touched_and_untouched() {
    let mut ids = IdGen::new();
    let mut t = Timeline::new(&mut ids);
    assert_eq!(t.data_at(0), Some(&0));
    assert_eq!(t.data_at(1), None);
    assert_eq!(t.data_at(-1), None);
    t.data_backwards = vec![7, 8];
    assert_eq!(t.data_at(-1), Some(&7));
    assert_eq!(t.data_at(-2), Some(&8));
    assert_eq!(t.data_at(-3), None);
}

#[test]
fn context_new() {
    let c = BF5DContext::new();
    assert_eq!(c.raw_program, "");
    assert!(c.tokens.is_empty());
    assert_eq!(c.program_input, "hello");
    assert_eq!(c.program_output, "");
    assert_eq!(c.total_timelines, 0);
    assert!(c.metadata.is_empty());
}

#[test]
fn collect_metadata_records_each_timeline() {
    let mut ids = IdGen::new();
    let t0 = Timeline::new(&mut ids);
    let mut t1 = Timeline::new(&mut ids);
    t1.pointers = vec![];
    let mut t2 = Timeline::new(&mut ids);
    t2.pointers = vec![1, 2, 3];
    let mut c = BF5DContext::new();
    c.collect_timeline_metadata(&vec![t0, t1, t2]);
    assert_eq!(c.total_timelines, 3);
    let m: Vec<(usize, usize)> = c.metadata.iter().map(|m| (m.id(), m.pointers_count())).collect();
    assert_eq!(m, vec![(0, 1), (1, 0), (2, 3)]);
}

#[test]
fn update_increment_and_decrement_wrap() {
    let mut ids = IdGen::new();
    let mut t = Timeline::new(&mut ids);
    let mut c = context_for("+--", "");
    let cmds = run_alone(&mut t, &mut c, 3);
    assert_eq!(t.data, vec![255]);
    assert_eq!(t.instruction_pointer, 3);
    assert_eq!(cmds, vec![Command::Nothing, Command::Nothing, Command::Nothing]);
    let mut c = context_for("-+", "");
    run_alone(&mut t, &mut c, 0);
    t.instruction_pointer = 1;
    run_alone(&mut t, &mut c, 1);
    assert_eq!(t.data, vec![0]);
}

#[test]
fn update_moves_and_grows_tape() {
    let mut ids = IdGen::new();
    let mut t = Timeline::new(&mut ids);
    let mut c = context_for("<+>>>++", "");
    run_alone(&mut t, &mut c, 7);
    assert_eq!(t.data_backwards, vec![1]);
    assert_eq!(t.data, vec![0, 0, 2]);
    assert_eq!(t.pointers, vec![2]);
    assert_eq!(t.data_at(-1), Some(&1));
    assert_eq!(t.data_at(2), Some(&2));
}

#[test]
fn update_two_pointers_on_one_cell() {
    let mut ids = IdGen::new();
    let mut t = Timeline::new(&mut ids);
    t.pointers = vec![0, 0];
    let mut c = context_for("+", "");
    run_alone(&mut t, &mut c, 1);
    assert_eq!(t.data, vec![2]);
}

#[test]
fn update_write_appends_characters() {
    let mut ids = IdGen::new();
    let mut t = Timeline::new(&mut ids);
    t.data = vec![72, 105];
    t.pointers = vec![0, 1];
    let mut c = context_for("..", "");
    c.program_output = "> ".to_string();
    run_alone(&mut t, &mut c, 2);
    assert_eq!(c.program_output, "> HiHi");
}

#[test]
fn update_read_takes_first_input_character() {
    let mut ids = IdGen::new();
    let mut t = Timeline::new(&mut ids);
    let mut c = context_for(",>,", "hello");
    run_alone(&mut t, &mut c, 3);
    assert_eq!(t.data, vec![b'h', b'e']);
    assert_eq!(c.program_input, "llo");
}

#[test]
fn update_read_non_ascii_keeps_low_byte() {
    let mut ids = IdGen::new();
    let mut t = Timeline::new(&mut ids);
    let mut c = context_for(",", "é!");
    run_alone(&mut t, &mut c, 1);
    assert_eq!(t.data, vec![('é' as u32 & 0xff) as u8]);
    assert_eq!(c.program_input, "!");
}

#[test]
fn update_jumps() {
    let mut ids = IdGen::new();
    let mut t = Timeline::new(&mut ids);
    // a zero cell: `[` jumps to its `]`, which moves on
    let mut c = context_for("[+]-", "");
    run_alone(&mut t, &mut c, 1);
    assert_eq!(t.instruction_pointer, 2);
    run_alone(&mut t, &mut c, 1);
    assert_eq!(t.instruction_pointer, 3);
    // a nonzero cell: `[` moves on, `]` jumps back to its `[`
    let mut t = Timeline::new(&mut ids);
    t.data = vec![1];
    let mut c = context_for("[-]", "");
    run_alone(&mut t, &mut c, 1);
    assert_eq!(t.instruction_pointer, 1);
    t.data = vec![5];
    t.instruction_pointer = 2;
    run_alone(&mut t, &mut c, 1);
    assert_eq!(t.instruction_pointer, 0);
}

#[test]
fn update_jump_scans_up_to_first_nonzero() {
    let mut ids = IdGen::new();
    let mut t = Timeline::new(&mut ids);
    // the second pointer's cell was never touched, but the first is nonzero
    t.data = vec![3];
    t.pointers = vec![0, 9];
    let c = context_for("[]", "");
    assert!(t.can_update(&c));
    assert_eq!(t.scan_pointers(), Some(false));
    // a zero first: the scan reaches the untouched cell
    t.data = vec![0];
    assert_eq!(t.scan_pointers(), None);
    assert!(!t.can_update(&c));
}

#[test]
fn update_commands() {
    let mut ids = IdGen::new();
    let mut t = Timeline::new(&mut ids);
    let mut c = context_for("^v()", "");
    let cmds = run_alone(&mut t, &mut c, 4);
    assert_eq!(
        cmds,
        vec![
            Command::MovePointer { id: 0, direction: MoveDirection::Up },
            Command::MovePointer { id: 0, direction: MoveDirection::Down },
            Command::SpawnAt { id: 0, instruction_start: 3 },
            Command::RemoveAt(0),
        ]
    );
    // past the end of the program: asks to be removed, changes nothing
    let before = t.clone();
    let (_, cmd) = t.update(&mut c);
    assert_eq!(cmd, Command::RemoveAt(0));
    assert_eq!(t, before);
}

#[test]
fn update_await() {
    let mut ids = IdGen::new();
    let mut t0 = Timeline::new(&mut ids);
    let mut t1 = Timeline::new(&mut ids);
    let mut c = context_for("@", "");
    // the timeline below holds a pointer: wait
    c.collect_timeline_metadata(&vec![t0.clone(), t1.clone()]);
    t0.update(&mut c);
    assert_eq!(t0.instruction_pointer, 0);
    // the last timeline has none below: go on
    t1.update(&mut c);
    assert_eq!(t1.instruction_pointer, 1);
    // the timeline below holds no pointers: go on
    let mut t2 = t1.clone();
    t2.pointers = vec![];
    t2.id = 7;
    c.collect_timeline_metadata(&vec![t0.clone(), t2]);
    t0.update(&mut c);
    assert_eq!(t0.instruction_pointer, 1);
    // a timeline missing from the metadata cannot take the step
    let t3 = Timeline::new(&mut ids);
    assert!(!t3.can_update(&c));
}

#[test]
fn can_update_panicking_steps() {
    let mut ids = IdGen::new();
    let t = Timeline::new(&mut ids);
    assert!(!t.can_update(&context_for("~", "")));
    assert!(!t.can_update(&context_for(",", "")));
    assert!(t.can_update(&context_for(",", "a")));
    let mut t2 = t.clone();
    t2.pointers = vec![1];
    assert!(!t2.can_update(&context_for(".", "")));
    t2.pointers = vec![isize::MIN];
    assert!(!t2.can_update(&context_for("<", "")));
    assert!(t2.can_update(&context_for(">", "")));
    t2.pointers = vec![isize::MAX];
    assert!(!t2.can_update(&context_for(">", "")));
}

#[test]
fn find_timeline_first_with_id() {
    let mut ids = IdGen::new();
    let t0 = Timeline::new(&mut ids);
    let t1 = Timeline::new(&mut ids);
    let ts = vec![t0.clone(), t1, t0];
    assert_eq!(find_timeline(&ts, 0), Some(0));
    assert_eq!(find_timeline(&ts, 1), Some(1));
    assert_eq!(find_timeline(&ts, 2), None);
}

#[test]
fn execute_spawn_inserts_copy_below() {
    let mut ids = IdGen::new();
    let mut t0 = Timeline::new(&mut ids);
    t0.instruction_pointer = 1;
    t0.data = vec![9];
    let t1 = Timeline::new(&mut ids);
    let mut ts = vec![t0, t1];
    let c = BF5DContext::new();
    let cmd = Command::SpawnAt { id: 0, instruction_start: 5 };
    assert!(c.can_execute(&cmd, &ts, &ids));
    c.execute_command(cmd, &mut ts, &mut ids);
    assert_eq!(ts.len(), 3);
    assert_eq!(ts[0].id, 0);
    assert_eq!(ts[0].instruction_pointer, 5);
    assert_eq!(ts[1].id, 2);
    assert_eq!(ts[1].instruction_pointer, 1);
    assert_eq!(ts[1].data, vec![9]);
    assert_eq!(ts[2].id, 1);
    assert_eq!(ids.next, 3);
}

#[test]
fn execute_remove() {
    let mut ids = IdGen::new();
    let mut ts = vec![Timeline::new(&mut ids), Timeline::new(&mut ids)];
    let c = BF5DContext::new();
    // the first timeline stays
    c.execute_command(Command::RemoveAt(0), &mut ts, &mut ids);
    assert_eq!(ts.len(), 2);
    c.execute_command(Command::RemoveAt(1), &mut ts, &mut ids);
    assert_eq!(ts.len(), 1);
    assert_eq!(ts[0].id, 0);
    assert!(!c.can_execute(&Command::RemoveAt(1), &ts, &ids));
}

#[test]
fn execute_move_pointer() {
    let mut ids = IdGen::new();
    let mut ts = vec![Timeline::new(&mut ids), Timeline::new(&mut ids), Timeline::new(&mut ids)];
    ts[1].pointers = vec![4, 5];
    let c = BF5DContext::new();
    c.execute_command(Command::MovePointer { id: 1, direction: MoveDirection::Up }, &mut ts, &mut ids);
    assert_eq!(ts[0].pointers, vec![0, 4, 5]);
    assert!(ts[1].pointers.is_empty());
    c.execute_command(Command::MovePointer { id: 0, direction: MoveDirection::Up }, &mut ts, &mut ids);
    assert!(ts[0].pointers.is_empty());
    // down from the first timeline hands them to the one below
    ts[0].pointers = vec![7, 8];
    c.execute_command(Command::MovePointer { id: 0, direction: MoveDirection::Down }, &mut ts, &mut ids);
    assert!(ts[0].pointers.is_empty());
    assert_eq!(ts[1].pointers, vec![7, 8]);
    ts[1].pointers = vec![3];
    c.execute_command(Command::MovePointer { id: 1, direction: MoveDirection::Down }, &mut ts, &mut ids);
    assert_eq!(ts[2].pointers, vec![0, 3]);
    assert!(ts[1].pointers.is_empty());
    // down from a lone timeline drops them
    let mut lone = vec![Timeline::new(&mut ids)];
    c.execute_command(Command::MovePointer { id: lone[0].id, direction: MoveDirection::Down }, &mut lone, &mut ids);
    assert!(lone[0].pointers.is_empty());
    // down from the last timeline panics, left and right are no commands
    assert!(!c.can_execute(&Command::MovePointer { id: 2, direction: MoveDirection::Down }, &ts, &ids));
    assert!(!c.can_execute(&Command::MovePointer { id: 1, direction: MoveDirection::Left }, &ts, &ids));
    assert!(!c.can_execute(&Command::MovePointer { id: 9, direction: MoveDirection::Up }, &ts, &ids));
    assert!(c.can_execute(&Command::Nothing, &ts, &ids));
}

#[test]
fn step_program_read_write() {
    let mut ids = IdGen::new();
    let mut c = BF5DContext::new();
    c.raw_program = ",.,.".to_string();
    assert!(load_program(&mut c).unwrap().is_ok());
    let mut ts = reset_program(&mut c, &mut ids);
    for _ in 0..4 {
        assert!(step_program(&mut c, &mut ts, &mut ids));
    }
    assert_eq!(c.program_output, "he");
    assert_eq!(c.program_input, "llo");
    // past the end: the first timeline asks to be removed and stays
    assert!(step_program(&mut c, &mut ts, &mut ids));
    assert_eq!(ts.len(), 1);
}

#[test]
fn step_program_spawns_and_kills() {
    let mut ids = IdGen::new();
    let mut c = BF5DContext::new();
    c.raw_program = "(+)".to_string();
    load_program(&mut c).unwrap().unwrap();
    let mut ts = reset_program(&mut c, &mut ids);
    assert!(step_program(&mut c, &mut ts, &mut ids));
    assert_eq!(ts.len(), 2);
    assert_eq!(ts[0].instruction_pointer, 2);
    assert_eq!(ts[1].instruction_pointer, 1);
    assert_eq!(c.total_timelines, 1);
    assert!(step_program(&mut c, &mut ts, &mut ids));
    assert_eq!(ts[1].data, vec![1]);
    assert_eq!(ts[0].instruction_pointer, 3);
    // the spawned timeline reaches `)` and is removed
    assert!(step_program(&mut c, &mut ts, &mut ids));
    assert_eq!(ts.len(), 1);
    assert_eq!(ts[0].id, 0);
}

#[test]
fn step_program_reports_panic() {
    let mut ids = IdGen::new();
    let mut c = BF5DContext::new();
    c.raw_program = "~".to_string();
    load_program(&mut c).unwrap().unwrap();
    let mut ts = reset_program(&mut c, &mut ids);
    assert!(!step_program(&mut c, &mut ts, &mut ids));
}

#[test]
fn load_program_errors_and_panics() {
    let mut c = BF5DContext::new();
    c.raw_program = "(".to_string();
    let e = load_program(&mut c).unwrap().unwrap_err();
    assert_eq!(e.message(), "unmatched parentheses");
    assert!(c.tokens.is_empty());
    c.raw_program = "]".to_string();
    assert!(load_program(&mut c).is_none());
    c.raw_program = "+-".to_string();
    assert!(load_program(&mut c).unwrap().is_ok());
    assert_eq!(c.tokens.len(), 2);
}

#[test]
fn reset_program_clears_output() {
    let mut ids = IdGen::new();
    ids.next = 5;
    let mut c = BF5DContext::new();
    c.program_output = "abc".to_string();
    let ts = reset_program(&mut c, &mut ids);
    assert_eq!(c.program_output, "");
    assert_eq!(ts.len(), 1);
    assert_eq!(ts[0].id, 5);
    assert_eq!(ts[0].pointers, vec![0]);
}

#[test]
fn law_decrement_undoes_increment_on_example() {
    let mut ids = IdGen::new();
    let mut t = Timeline::new(&mut ids);
    t.data = vec![255, 7];
    t.data_backwards = vec![3];
    t.pointers = vec![0, -1, 0, 3];
    let before = t.clone();
    let mut c = context_for("+-", "");
    run_alone(&mut t, &mut c, 2);
    for i in -1..4 {
        assert_eq!(t.data_at(i).copied().unwrap_or(0), before.data_at(i).copied().unwrap_or(0));
    }
    assert_eq!(t.pointers, before.pointers);
    assert_eq!(t.instruction_pointer, 2);
}

#[test]
fn law_right_undoes_left_on_example() {
    let mut ids = IdGen::new();
    let mut t = Timeline::new(&mut ids);
    t.pointers = vec![0, -4, 9];
    let mut c = context_for("<>", "");
    run_alone(&mut t, &mut c, 2);
    assert_eq!(t.pointers, vec![0, -4, 9]);
}

#[test]
fn law_output_append_only_on_example() {
    let mut ids = IdGen::new();
    let mut t = Timeline::new(&mut ids);
    let mut c = context_for(",.", "xyz");
    c.program_output = "ab".to_string();
    run_alone(&mut t, &mut c, 2);
    assert!(c.program_output.starts_with("ab"));
    assert_eq!(c.program_output, "abx");
    assert!("xyz".ends_with(c.program_input.as_str()));
}

#[test]
fn law_ids_unique_and_first_kept_on_example() {
    let mut ids = IdGen::new();
    let mut c = BF5DContext::new();
    c.raw_program = "((()))".to_string();
    load_program(&mut c).unwrap().unwrap();
    let mut ts = reset_program(&mut c, &mut ids);
    for _ in 0..8 {
        assert!(step_program(&mut c, &mut ts, &mut ids));
        let mut seen: Vec<usize> = ts.iter().map(|t| t.id).collect();
        assert!(seen.iter().all(|id| *id < ids.next));
        seen.sort();
        seen.dedup();
        assert_eq!(seen.len(), ts.len());
        assert_eq!(ts[0].id, 0);
    }
}

#[test]
fn law_move_pointer_keeps_pointer_count_on_example() {
    let mut ids = IdGen::new();
    let mut ts = vec![Timeline::new(&mut ids), Timeline::new(&mut ids), Timeline::new(&mut ids)];
    ts[1].pointers = vec![1, 2, 3];
    let total = |ts: &Vec<Timeline>| ts.iter().map(|t| t.pointers.len()).sum::<usize>();
    let before = total(&ts);
    let c = BF5DContext::new();
    c.execute_command(Command::MovePointer { id: 1, direction: MoveDirection::Down }, &mut ts, &mut ids);
    assert_eq!(total(&ts), before);
    c.execute_command(Command::MovePointer { id: 2, direction: MoveDirection::Up }, &mut ts, &mut ids);
    assert_eq!(total(&ts), before);
}

#[test]
fn token_rewind_is_parsed_but_cannot_run() {
    let mut ids = IdGen::new();
    let t = Timeline::new(&mut ids);
    let c = context_for("~", "");
    assert_eq!(c.tokens, vec![Token::Rewind]);
    assert!(!t.can_update(&c));
}

#[test]
fn law_jump_lands_on_partner_on_example() {
    let mut ids = IdGen::new();
    let mut t = Timeline::new(&mut ids);
    let mut c = context_for("+[[-]]", "");
    // `+`, then `[` at 1 moves on, `[` at 2 moves on, `-`, `]` at 4 moves on
    run_alone(&mut t, &mut c, 5);
    assert_eq!(t.instruction_pointer, 5);
    // the outer `]` at 5 with a zero cell moves on
    run_alone(&mut t, &mut c, 1);
    assert_eq!(t.instruction_pointer, 6);
    // a zero cell at `[` jumps straight to its partner
    let mut t = Timeline::new(&mut ids);
    t.instruction_pointer = 1;
    run_alone(&mut t, &mut c, 1);
    assert_eq!(t.instruction_pointer, 5);
    assert_eq!(c.tokens[5], Token::Jump { type_: bf5d::parser::types::JumpType::IfNotZero, index: 1 });
}

#[test]
fn cell_layout_lists_cells_left_to_right() {
    let mut ids = IdGen::new();
    let mut t = Timeline::new(&mut ids);
    t.data = vec![5, 6];
    t.data_backwards = vec![1, 2, 3];
    t.pointers = vec![0, -3, 0, 9, -1];
    assert_eq!(
        cell_layout(&t),
        vec![(-3, 3, 1), (-2, 2, 0), (-1, 1, 1), (0, 5, 2), (1, 6, 0)]
    );
    let t = Timeline::new(&mut ids);
    assert_eq!(cell_layout(&t), vec![(0, 0, 1)]);
}

#[test]
fn law_move_pointer_down_from_first_keeps_pointer_count_on_example() {
    let mut ids = IdGen::new();
    let mut ts = vec![Timeline::new(&mut ids), Timeline::new(&mut ids)];
    ts[0].pointers = vec![2, 3];
    let c = BF5DContext::new();
    c.execute_command(Command::MovePointer { id: 0, direction: MoveDirection::Down }, &mut ts, &mut ids);
    assert_eq!(ts[0].pointers.len() + ts[1].pointers.len(), 3);
    assert_eq!(ts[1].pointers, vec![0, 2, 3]);
}
