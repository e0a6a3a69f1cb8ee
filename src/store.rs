use vstd::prelude::*;

use crate::engine::Command;

verus! {

#[verifier::external_type_specification]
#[verifier::external_body]
pub struct ExPipeline(redis::Pipeline);

#[verifier::external_type_specification]
#[verifier::external_body]
pub struct ExCmd(redis::Cmd);

/// The commands that a pipeline holds, in order: each one's arguments, and
/// whether its reply is left out of the pipeline's result.
pub uninterp spec fn pipeline_commands(p: redis::Pipeline) -> Seq<(Seq<Seq<u8>>, bool)>;

/// The arguments of a command, name first, each as bytes.
pub uninterp spec fn cmd_args(c: redis::Cmd) -> Seq<Seq<u8>>;

/// Relies on redis::Pipeline::new: a new pipeline holds no command.
#[verifier::external_body]
fn new_pipeline() -> (r: redis::Pipeline)
    ensures
        pipeline_commands(r) == Seq::<(Seq<Seq<u8>>, bool)>::empty(),
{
    redis::Pipeline::new()
}

/// Relies on redis::Cmd::new: a new command has no argument.
#[verifier::external_body]
fn new_cmd() -> (r: redis::Cmd)
    ensures
        cmd_args(r) == Seq::<Seq<u8>>::empty(),
{
    redis::Cmd::new()
}

/// Relies on redis::Cmd::arg: a `Vec<u8>` is written as one argument holding
/// its bytes.
#[verifier::external_body]
fn cmd_arg(c: &mut redis::Cmd, a: &Vec<u8>)
    ensures
        cmd_args(*final(c)) == cmd_args(*old(c)).push(a@),
{
    c.arg(a);
}

/// Relies on redis::Pipeline::add_command: the command goes last, and its
/// reply is kept.
#[verifier::external_body]
fn pipe_add(p: &mut redis::Pipeline, c: redis::Cmd)
    ensures
        pipeline_commands(*final(p)) == pipeline_commands(*old(p)).push((cmd_args(c), false)),
{
    p.add_command(c);
}

/// Relies on redis::Pipeline::ignore: the reply of the last command is left
/// out of the result; an empty pipeline stays as it is.
#[verifier::external_body]
fn pipe_ignore(p: &mut redis::Pipeline)
    ensures
        pipeline_commands(*old(p)).len() == 0 ==> pipeline_commands(*final(p))
            == pipeline_commands(*old(p)),
        pipeline_commands(*old(p)).len() > 0 ==> pipeline_commands(*final(p))
            == pipeline_commands(*old(p)).update(
            pipeline_commands(*old(p)).len() - 1,
            (pipeline_commands(*old(p)).last().0, true),
        ),
{
    p.ignore();
}

/// A store command holding the arguments of `c`.
pub fn to_cmd(c: &Command) -> (r: redis::Cmd)
    ensures
        cmd_args(r) == c.deep_view(),
{
    let mut r = new_cmd();
    let mut i: usize = 0;
    while i < c.len()
        invariant
            i <= c@.len(),
            cmd_args(r) == c.deep_view().take(i as int),
        decreases c@.len() - i,
    {
        cmd_arg(&mut r, &c[i]);
        i = i + 1;
        proof {
            assert(c[i - 1].deep_view() =~= c[i - 1]@);
            assert(c.deep_view().take(i as int) =~= c.deep_view().take(i - 1).push(c[i - 1]@));
        }
    }
    proof {
        assert(c.deep_view().take(i as int) =~= c.deep_view());
    }
    r
}

/// A pipeline of `cmds` in order, each reply left out of the result when
/// `ignore_replies` holds.
pub fn to_pipeline(cmds: &Vec<Command>, ignore_replies: bool) -> (r: redis::Pipeline)
    ensures
        pipeline_commands(r).len() == cmds@.len(),
        forall|i: int|
            0 <= i < cmds@.len() ==> #[trigger] pipeline_commands(r)[i] == (
            cmds@[i].deep_view(),
            ignore_replies,
        ),
{
    let mut p = new_pipeline();
    let mut i: usize = 0;
    while i < cmds.len()
        invariant
            i <= cmds@.len(),
            pipeline_commands(p).len() == i,
            forall|j: int|
                0 <= j < i ==> #[trigger] pipeline_commands(p)[j] == (
                cmds@[j].deep_view(),
                ignore_replies,
            ),
        decreases cmds@.len() - i,
    {
        pipe_add(&mut p, to_cmd(&cmds[i]));
        if ignore_replies {
            pipe_ignore(&mut p);
        }
        i = i + 1;
    }
    p
}

} // verus!
