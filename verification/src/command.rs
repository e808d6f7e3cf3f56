//! The command lines that the enclave runs, and the network set-up of the
//! enclave made of them. Programs are started with an empty environment.
use vstd::prelude::*;
use crate::hex::push_char;

verus! {

/// Where the `ip` utility lives.
pub const IP_PATH: &'static str = "/usr/sbin/ip";

/// The dynamic loader that starts programs that are not statically linked.
pub const LD_LOADER: &'static str = "/lib/ld-musl-x86";

/// The pieces of `s` between single spaces, empty pieces included (as
/// `str::split(" ")` cuts): `""` gives one empty piece, `"a  b"` gives
/// `"a"`, `""`, `"b"`.
pub open spec fn split_spaces(s: Seq<char>) -> Seq<Seq<char>>
    decreases s.len(),
{
    if s.len() == 0 {
        seq![Seq::empty()]
    } else {
        let rest = split_spaces(s.drop_last());
        if s.last() == ' ' {
            rest.push(Seq::empty())
        } else {
            rest.update(rest.len() - 1, rest.last().push(s.last()))
        }
    }
}

/// The pieces put back together with a space between each two.
pub open spec fn join_spaces(pieces: Seq<Seq<char>>) -> Seq<char>
    decreases pieces.len(),
{
    if pieces.len() <= 1 {
        if pieces.len() == 0 { Seq::empty() } else { pieces[0] }
    } else {
        join_spaces(pieces.drop_last()) + seq![' '] + pieces.last()
    }
}

/// `split_spaces` gives at least one piece.
pub proof fn lemma_split_nonempty(s: Seq<char>)
    ensures
        split_spaces(s).len() >= 1,
    decreases s.len(),
{
    if s.len() > 0 {
        lemma_split_nonempty(s.drop_last());
    }
}

/// Splitting at spaces loses nothing: the pieces joined by spaces are the
/// string again, and no piece holds a space.
pub proof fn lemma_split_join(s: Seq<char>)
    ensures
        join_spaces(split_spaces(s)) == s,
        forall|i: int, j: int|
            0 <= i < split_spaces(s).len() && 0 <= j < split_spaces(s)[i].len()
                ==> split_spaces(s)[i][j] != ' ',
    decreases s.len(),
{
    if s.len() > 0 {
        let init = s.drop_last();
        lemma_split_join(init);
        lemma_split_nonempty(init);
        let rest = split_spaces(init);
        let pieces = split_spaces(s);
        if s.last() == ' ' {
            assert(pieces.drop_last() =~= rest);
            assert(join_spaces(pieces) =~= join_spaces(rest) + seq![' '] + Seq::<char>::empty());
            assert(join_spaces(pieces) =~= s);
        } else {
            let k = rest.len() - 1;
            assert(pieces.len() == rest.len());
            if rest.len() == 1 {
                assert(join_spaces(pieces) =~= s);
            } else {
                assert(pieces.drop_last() =~= rest.drop_last());
                assert(join_spaces(rest) == join_spaces(rest.drop_last()) + seq![' '] + rest.last());
                assert(join_spaces(pieces) =~= join_spaces(rest) + seq![s.last()]);
                assert(join_spaces(pieces) =~= s);
            }
            assert forall|i: int, j: int|
                0 <= i < pieces.len() && 0 <= j < pieces[i].len() implies pieces[i][j] != ' ' by {
                if i == k && j == pieces[i].len() - 1 {
                } else if i == k {
                    assert(pieces[i][j] == rest[i][j]);
                }
            }
        }
    }
}

/// The views of a list of strings.
pub open spec fn views(v: Seq<String>) -> Seq<Seq<char>> {
    v.map_values(|a: String| a@)
}

/// Cuts `s` at every single space, as `str::split(" ")` does.
pub fn split_args(s: &str) -> (pieces: Vec<String>)
    ensures
        views(pieces@) == split_spaces(s@),
{
    let n = s.unicode_len();
    let mut pieces: Vec<String> = Vec::new();
    let mut current = String::new();
    for i in 0..n
        invariant
            n == s@.len(),
            views(pieces@).push(current@) == split_spaces(s@.take(i as int)),
    {
        let c = s.get_char(i);
        let ghost prefix = s@.take(i + 1);
        assert(prefix.drop_last() =~= s@.take(i as int));
        assert(prefix.last() == c);
        proof {
            lemma_split_nonempty(s@.take(i as int));
        }
        if c == ' ' {
            let done = current;
            pieces.push(done);
            current = String::new();
            assert(views(pieces@).push(current@) =~= split_spaces(prefix));
        } else {
            push_char(&mut current, c);
            assert(views(pieces@).push(current@) =~= split_spaces(prefix));
        }
    }
    assert(s@.take(n as int) =~= s@);
    pieces.push(current);
    assert(views(pieces@) =~= split_spaces(s@));
    pieces
}

/// A program to start and its arguments.
pub struct Invocation {
    pub program: String,
    pub args: Vec<String>,
}

impl View for Invocation {
    type V = (Seq<char>, Seq<Seq<char>>);

    open spec fn view(&self) -> (Seq<char>, Seq<Seq<char>>) {
        (self.program@, views(self.args@))
    }
}

/// The invocation that starts `cmd_path` through the dynamic loader, with the
/// space-separated `args`.
pub open spec fn spec_run_with_ld(cmd_path: Seq<char>, args: Seq<char>) -> (Seq<char>, Seq<Seq<char>>) {
    (LD_LOADER@, seq![cmd_path] + split_spaces(args))
}

/// The invocation that starts the statically linked `cmd_path` with the
/// space-separated `args`.
pub open spec fn spec_run_static(cmd_path: Seq<char>, args: Seq<char>) -> (Seq<char>, Seq<Seq<char>>) {
    (cmd_path, split_spaces(args))
}


/// A static invocation runs the program it names with the pieces of `args`
/// as its arguments: joined with single spaces they give `args` back, and none
/// holds a space, so an argument list like `"16 9001 true"` gives three
/// arguments.
pub proof fn lemma_run_static_args(cmd_path: Seq<char>, args: Seq<char>)
    ensures
        spec_run_static(cmd_path, args).0 == cmd_path,
        join_spaces(spec_run_static(cmd_path, args).1) == args,
        forall|i: int, j: int|
            0 <= i < spec_run_static(cmd_path, args).1.len() && 0 <= j < spec_run_static(
                cmd_path,
                args,
            ).1[i].len() ==> spec_run_static(cmd_path, args).1[i][j] != ' ',
{
    lemma_split_join(args);
}

/// An invocation through the loader hands the loader the program first, then
/// the pieces of `args`: joined with single spaces they give `args` back, and
/// none holds a space.
pub proof fn lemma_run_with_ld_args(cmd_path: Seq<char>, args: Seq<char>)
    ensures
        spec_run_with_ld(cmd_path, args).0 == LD_LOADER@,
        spec_run_with_ld(cmd_path, args).1.len() >= 2,
        spec_run_with_ld(cmd_path, args).1[0] == cmd_path,
        join_spaces(spec_run_with_ld(cmd_path, args).1.skip(1)) == args,
        forall|i: int, j: int|
            1 <= i < spec_run_with_ld(cmd_path, args).1.len() && 0 <= j < spec_run_with_ld(
                cmd_path,
                args,
            ).1[i].len() ==> spec_run_with_ld(cmd_path, args).1[i][j] != ' ',
{
    lemma_split_join(args);
    lemma_split_nonempty(args);
    let v = spec_run_with_ld(cmd_path, args).1;
    assert(v.skip(1) =~= split_spaces(args));
    assert forall|i: int, j: int| 1 <= i < v.len() && 0 <= j < v[i].len() implies v[i][j] != ' ' by {
        assert(v[i] == split_spaces(args)[i - 1]);
    }
}

/// The invocation that starts the statically linked program `cmd_path` with
/// the space-separated `args`.
pub fn run_static(cmd_path: &str, args: &str) -> (inv: Invocation)
    ensures
        inv@ == spec_run_static(cmd_path@, args@),
        inv.program@ == cmd_path@,
        views(inv.args@) == split_spaces(args@),
        join_spaces(views(inv.args@)) == args@,
        forall|i: int, j: int|
            0 <= i < inv.args@.len() && 0 <= j < inv.args@[i]@.len() ==> inv.args@[i]@[j] != ' ',
{
    proof {
        lemma_split_join(args@);
    }
    let inv = Invocation { program: cmd_path.to_owned(), args: split_args(args) };
    assert forall|i: int, j: int|
        0 <= i < inv.args@.len() && 0 <= j < inv.args@[i]@.len() implies inv.args@[i]@[j] != ' ' by {
        assert(views(inv.args@)[i] == inv.args@[i]@);
    }
    inv
}

/// The invocation that starts `cmd_path` through the dynamic loader
/// `LD_LOADER`, with the space-separated `args`.
pub fn run_with_ld(cmd_path: &str, args: &str) -> (inv: Invocation)
    ensures
        inv@ == spec_run_with_ld(cmd_path@, args@),
        inv.program@ == LD_LOADER@,
        views(inv.args@) == seq![cmd_path@] + split_spaces(args@),
        inv.args@.len() >= 2,
        inv.args@[0]@ == cmd_path@,
        join_spaces(views(inv.args@).skip(1)) == args@,
        forall|i: int, j: int|
            1 <= i < inv.args@.len() && 0 <= j < inv.args@[i]@.len() ==> inv.args@[i]@[j] != ' ',
{
    proof {
        lemma_split_join(args@);
        lemma_split_nonempty(args@);
    }
    let mut all: Vec<String> = Vec::new();
    all.push(cmd_path.to_owned());
    let mut rest = split_args(args);
    all.append(&mut rest);
    assert(views(all@) =~= seq![cmd_path@] + split_spaces(args@));
    let inv = Invocation { program: LD_LOADER.to_owned(), args: all };
    assert(views(inv.args@).skip(1) =~= split_spaces(args@));
    assert forall|i: int, j: int|
        1 <= i < inv.args@.len() && 0 <= j < inv.args@[i]@.len() implies inv.args@[i]@[j] != ' ' by {
        assert(views(inv.args@)[i] == inv.args@[i]@);
        assert(views(inv.args@)[i] == split_spaces(args@)[i - 1]);
    }
    inv
}

/// A run of the `ip` utility, and what to report when it does not succeed.
pub struct IpCommand {
    pub invocation: Invocation,
    pub failure: String,
}

impl View for IpCommand {
    type V = ((Seq<char>, Seq<Seq<char>>), Seq<char>);

    open spec fn view(&self) -> ((Seq<char>, Seq<Seq<char>>), Seq<char>) {
        (self.invocation@, self.failure@)
    }
}

/// The run of `ip` with the space-separated `args`, through the loader, that
/// reports `fail_str` where `ip` does not exit successfully.
pub open spec fn spec_run_ip(args: Seq<char>, fail_str: Seq<char>) -> ((Seq<char>, Seq<Seq<char>>), Seq<char>) {
    (spec_run_with_ld(IP_PATH@, args), fail_str)
}

/// The run of the `ip` utility (at `IP_PATH`, through the loader) with the
/// space-separated `args`; `fail_str` is the message of the failure where
/// `ip` does not exit successfully.
pub fn run_ip(args: &str, fail_str: &str) -> (cmd: IpCommand)
    ensures
        cmd@ == spec_run_ip(args@, fail_str@),
{
    IpCommand { invocation: run_with_ld(IP_PATH, args), failure: fail_str.to_owned() }
}

/// The runs of `ip` that set up the tun interface `enclave_egress`, with
/// `10.0.0.1/32` on the loopback device and the default route through the
/// interface, in the order they are run.
pub fn setup_enclave_tunnel() -> (cmds: Vec<IpCommand>)
    ensures
        cmds@.len() == 5,
        cmds@[0]@ == spec_run_ip("tuntap add enclave_egress mode tun"@, "tuntap add failed"@),
        cmds@[1]@ == spec_run_ip("link set lo up"@, "unable to bring up lo"@),
        cmds@[2]@ == spec_run_ip("address add 10.0.0.1/32 dev lo"@, "ip assign to lo failed"@),
        cmds@[3]@ == spec_run_ip("link set enclave_egress up"@, "unable to bring up egress"@),
        cmds@[4]@ == spec_run_ip("route add default dev enclave_egress"@, "unable to route"@),
{
    let mut cmds: Vec<IpCommand> = Vec::new();
    cmds.push(run_ip("tuntap add enclave_egress mode tun", "tuntap add failed"));
    cmds.push(run_ip("link set lo up", "unable to bring up lo"));
    cmds.push(run_ip("address add 10.0.0.1/32 dev lo", "ip assign to lo failed"));
    cmds.push(run_ip("link set enclave_egress up", "unable to bring up egress"));
    cmds.push(run_ip("route add default dev enclave_egress", "unable to route"));
    cmds
}

} // verus!
