use vstd::prelude::*;

use crate::interpreter::types::{
    execute_spec, update_spec, views_of, with_metadata, BF5DContext, Command, ContextView, IdGen,
    Timeline, TimelineView,
};
use crate::parser::bf5d::{parse_checked, parse_outcome};
use crate::parser::types::BF5DParseError;

verus! {

/// Every timeline in turn takes one step under the context; each step sees
/// the context as the steps before it left it. Gives the context, the
/// timelines and the commands they hand back, in order; `None` where a
/// step panics.
pub open spec fn update_all(c: ContextView, ts: Seq<TimelineView>) -> Option<
    (ContextView, Seq<TimelineView>, Seq<Command>),
>
    decreases ts.len(),
{
    if ts.len() == 0 {
        Some((c, seq![], seq![]))
    } else {
        match update_all(c, ts.drop_last()) {
            None => None,
            Some((c1, ts1, cmds)) => match update_spec(ts.last(), c1) {
                None => None,
                Some((t2, c2, cmd)) => Some((c2, ts1.push(t2), cmds.push(cmd))),
            },
        }
    }
}

/// The commands carried out in order; `None` where one panics.
pub open spec fn execute_all(ts: Seq<TimelineView>, cmds: Seq<Command>, next_id: usize) -> Option<
    (Seq<TimelineView>, usize),
>
    decreases cmds.len(),
{
    if cmds.len() == 0 {
        Some((ts, next_id))
    } else {
        match execute_all(ts, cmds.drop_last(), next_id) {
            None => None,
            Some((ts1, n1)) => execute_spec(ts1, cmds.last(), n1),
        }
    }
}

/// One step of the whole program: the context learns the identity and
/// pointer count of every timeline, every timeline takes one step, then the
/// commands they handed back are carried out in order. `None` where any of
/// it panics.
pub open spec fn step_spec(c: ContextView, ts: Seq<TimelineView>, next_id: usize) -> Option<
    (ContextView, Seq<TimelineView>, usize),
> {
    match update_all(with_metadata(c, ts), ts) {
        None => None,
        Some((c1, ts1, cmds)) => match execute_all(ts1, cmds, next_id) {
            None => None,
            Some((ts2, n2)) => Some((c1, ts2, n2)),
        },
    }
}

proof fn lemma_update_all_len(c: ContextView, ts: Seq<TimelineView>)
    ensures
        update_all(c, ts) matches Some((c1, ts1, cmds)) ==> ts1.len() == ts.len() && cmds.len()
            == ts.len(),
    decreases ts.len(),
{
    if ts.len() > 0 {
        lemma_update_all_len(c, ts.drop_last());
    }
}

/// Once a step panics, so does every longer run of steps.
proof fn lemma_update_all_none(c: ContextView, ts: Seq<TimelineView>, i: int)
    requires
        0 <= i <= ts.len(),
        update_all(c, ts.take(i)) is None,
    ensures
        update_all(c, ts) is None,
    decreases ts.len() - i,
{
    if i < ts.len() {
        assert(ts.take(i + 1).drop_last() =~= ts.take(i));
        lemma_update_all_none(c, ts, i + 1);
    } else {
        assert(ts.take(i) =~= ts);
    }
}

/// Once a command panics, so does every longer run of commands.
proof fn lemma_execute_all_none(ts: Seq<TimelineView>, cmds: Seq<Command>, n: usize, i: int)
    requires
        0 <= i <= cmds.len(),
        execute_all(ts, cmds.take(i), n) is None,
    ensures
        execute_all(ts, cmds, n) is None,
    decreases cmds.len() - i,
{
    if i < cmds.len() {
        assert(cmds.take(i + 1).drop_last() =~= cmds.take(i));
        lemma_execute_all_none(ts, cmds, n, i + 1);
    } else {
        assert(cmds.take(i) =~= cmds);
    }
}

/// Runs one step of the whole program (see [`step_spec`]). Returns `false`
/// exactly where that step panics; the state is then left as far as the
/// step got.
pub fn step_program(context: &mut BF5DContext, timelines: &mut Vec<Timeline>, ids: &mut IdGen) -> (ok:
    bool)
    ensures
        ok == step_spec(old(context)@, views_of(old(timelines)@), old(ids).next) is Some,
        ok ==> step_spec(old(context)@, views_of(old(timelines)@), old(ids).next) == Some(
            (final(context)@, views_of(final(timelines)@), final(ids).next),
        ),
{
    let ghost ts0 = views_of(timelines@);
    context.collect_timeline_metadata(timelines);
    let ghost c0 = context@;
    let mut commands: Vec<Command> = Vec::new();
    let n = timelines.len();
    let mut i: usize = 0;
    proof {
        assert(ts0.take(0) =~= Seq::<TimelineView>::empty());
        assert(views_of(timelines@).take(0) =~= Seq::<TimelineView>::empty());
        assert(commands@ =~= Seq::<Command>::empty());
    }
    while i < n
        invariant
            n == timelines.len(),
            n == ts0.len(),
            i <= n,
            c0 == with_metadata(old(context)@, ts0),
            ts0 == views_of(old(timelines)@),
            update_all(c0, ts0.take(i as int)) == Some(
                (context@, views_of(timelines@).take(i as int), commands@),
            ),
            forall|k: int| i <= k < n ==> #[trigger] views_of(timelines@)[k] == ts0[k],
        decreases n - i,
    {
        proof {
            assert(ts0.take(i + 1).drop_last() =~= ts0.take(i as int));
            assert(ts0.take(i + 1).last() == ts0[i as int]);
            assert(views_of(timelines@)[i as int] == timelines@[i as int]@);
        }
        if !timelines[i].can_update(context) {
            proof {
                assert(update_spec(ts0[i as int], context@) is None);
                assert(update_all(c0, ts0.take(i + 1)) is None);
                lemma_update_all_none(c0, ts0, i + 1);

            }
            return false;
        }
        let ghost before = views_of(timelines@);
        let t = &mut timelines[i];
        let (_, command) = t.update(context);
        commands.push(command);
        proof {
            assert(views_of(timelines@) =~= before.update(i as int, timelines@[i as int]@));
            assert(views_of(timelines@).take(i + 1) =~= before.take(i as int).push(
                timelines@[i as int]@,
            ));
        }
        i = i + 1;
    }
    proof {
        assert(ts0.take(n as int) =~= ts0);
        lemma_update_all_len(c0, ts0);
    }
    let ghost ts1 = views_of(timelines@);
    let ghost n0 = ids.next;
    let m = commands.len();
    let mut j: usize = 0;
    proof {
        assert(views_of(timelines@).take(n as int) =~= ts1);
        assert(commands@.take(0) =~= Seq::<Command>::empty());
    }
    while j < m
        invariant
            m == commands.len(),
            j <= m,
            update_all(c0, ts0) == Some((context@, ts1, commands@)),
            c0 == with_metadata(old(context)@, ts0),
            ts0 == views_of(old(timelines)@),
            n0 == old(ids).next,
            execute_all(ts1, commands@.take(j as int), n0) == Some(
                (views_of(timelines@), ids.next),
            ),
        decreases m - j,
    {
        proof {
            assert(commands@.take(j + 1).drop_last() =~= commands@.take(j as int));
            assert(commands@.take(j + 1).last() == commands@[j as int]);
        }
        if !context.can_execute(&commands[j], timelines, ids) {
            proof {
                assert(execute_all(ts1, commands@.take(j + 1), n0) is None);
                lemma_execute_all_none(ts1, commands@, n0, j + 1);
                assert(commands@.take(m as int) =~= commands@);
            }
            return false;
        }
        context.execute_command(commands[j], timelines, ids);
        j = j + 1;
    }
    proof {
        assert(commands@.take(m as int) =~= commands@);
    }
    true
}

/// Parses the program text of the context and, on success, makes its
/// instructions the program. Gives `None` exactly where parsing panics,
/// and the parse error where there is one; the context changes only on
/// success.
pub fn load_program(context: &mut BF5DContext) -> (r: Option<Result<(), BF5DParseError>>)
    ensures
        match parse_outcome(old(context)@.raw_program) {
            None => r is None && final(context)@ == old(context)@,
            Some(Ok(ts)) => r == Some(Ok::<(), BF5DParseError>(())) && final(context)@ == (ContextView {
                tokens: ts,
                ..old(context)@
            }),
            Some(Err(e)) => r matches Some(Err(err)) && err.message_view() == e.0
                && err.location_view() == e.1 && final(context)@ == old(context)@,
        },
{
    match parse_checked(context.raw_program.as_str()) {
        None => None,
        Some(Ok(tokens)) => {
            context.tokens = tokens;
            Some(Ok(()))
        },
        Some(Err(e)) => Some(Err(e)),
    }
}

/// Clears the output and gives the single fresh timeline a program starts
/// with.
pub fn reset_program(context: &mut BF5DContext, ids: &mut IdGen) -> (r: Vec<Timeline>)
    requires
        old(ids).next < usize::MAX,
    ensures
        final(context)@ == (ContextView { program_output: Seq::<char>::empty(), ..old(context)@ }),
        final(ids).next == old(ids).next + 1,
        r.len() == 1,
        r@[0]@ == (TimelineView {
            id: old(ids).next,
            data: seq![0u8],
            data_backwards: seq![],
            pointers: seq![0isize],
            instruction_pointer: 0,
        }),
{
    context.program_output = String::new();
    let mut r: Vec<Timeline> = Vec::new();
    r.push(Timeline::new(ids));
    r
}

} // verus!
