//! Which clipboard programs receive a copied hash, and how copying through
//! them is tried.
use vstd::prelude::*;
use crate::text::{concat2, owned};

verus! {

/// The platform the program runs on, as far as the clipboard cares.
#[derive(Clone, Copy, Debug, PartialEq, Eq, Structural)]
pub enum Platform {
    MacOs,
    Windows,
    /// A Unix other than macOS.
    Unix,
}

/// A program that puts its standard input on the clipboard, with its
/// arguments.
#[derive(Clone, Copy, Debug)]
pub struct ClipboardCommand {
    pub program: &'static str,
    pub args: &'static [&'static str],
}

/// The arguments of a clipboard command as texts.
pub open spec fn command_args(c: ClipboardCommand) -> Seq<Seq<char>> {
    c.args@.map_values(|a: &str| a@)
}

/// The clipboard programs tried on a platform, in order: `pbcopy` on macOS,
/// `clip` on Windows, and `wl-copy`, `xclip -selection clipboard`,
/// `xsel --clipboard --input` on other Unix systems.
pub open spec fn platform_commands(p: Platform) -> Seq<(Seq<char>, Seq<Seq<char>>)> {
    match p {
        Platform::MacOs => seq![("pbcopy"@, seq![])],
        Platform::Windows => seq![("clip"@, seq![])],
        Platform::Unix => seq![
            ("wl-copy"@, seq![]),
            ("xclip"@, seq!["-selection"@, "clipboard"@]),
            ("xsel"@, seq!["--clipboard"@, "--input"@]),
        ],
    }
}

/// The program and arguments of a clipboard command as texts.
pub open spec fn command_view(c: ClipboardCommand) -> (Seq<char>, Seq<Seq<char>>) {
    (c.program@, command_args(c))
}

/// The clipboard programs of `platform`, in the order they are tried.
pub fn clipboard_commands(platform: Platform) -> (r: Vec<ClipboardCommand>)
    ensures
        r@.map_values(|c: ClipboardCommand| command_view(c)) == platform_commands(platform),
{
    let mut r: Vec<ClipboardCommand> = Vec::new();
    match platform {
        Platform::MacOs => {
            r.push(ClipboardCommand { program: "pbcopy", args: &[] });
            assert(command_args(r@[0]) =~= seq![]);
        },
        Platform::Windows => {
            r.push(ClipboardCommand { program: "clip", args: &[] });
            assert(command_args(r@[0]) =~= seq![]);
        },
        Platform::Unix => {
            r.push(ClipboardCommand { program: "wl-copy", args: &[] });
            r.push(ClipboardCommand { program: "xclip", args: &["-selection", "clipboard"] });
            r.push(ClipboardCommand { program: "xsel", args: &["--clipboard", "--input"] });
            assert(command_args(r@[0]) =~= seq![]);
            assert(command_args(r@[1]) =~= seq!["-selection"@, "clipboard"@]);
            assert(command_args(r@[2]) =~= seq!["--clipboard"@, "--input"@]);
        },
    }
    assert(r@.map_values(|c: ClipboardCommand| command_view(c)) =~= platform_commands(platform));
    r
}

/// The texts of `parts` with `sep` between neighbours.
pub open spec fn join(parts: Seq<Seq<char>>, sep: Seq<char>) -> Seq<char>
    decreases parts.len(),
{
    if parts.len() == 0 {
        seq![]
    } else if parts.len() == 1 {
        parts[0]
    } else {
        join(parts.drop_last(), sep) + sep + parts.last()
    }
}

/// How one failed clipboard program is reported: `<program>: <error>`.
pub open spec fn failure_line(c: ClipboardCommand, err: Seq<char>) -> Seq<char> {
    c.program@ + ": "@ + err
}

/// The report of a copy that every program refused.
pub open spec fn unavailable_message(
    commands: Seq<ClipboardCommand>,
    errs: Seq<String>,
) -> Seq<char> {
    "clipboard unavailable ("@ + join(
        Seq::new(commands.len(), |i: int| failure_line(commands[i], errs[i]@)),
        "; "@,
    ) + ")"@
}

/// Copies `text` with the first of `commands` that succeeds, running them in
/// order through `run` and stopping at the first success. With no command
/// at all it says that no clipboard is configured; when all fail, it lists
/// each program with its error.
pub fn copy_to_clipboard<F: Fn(ClipboardCommand, &str) -> Result<(), String>>(
    commands: &Vec<ClipboardCommand>,
    text: &str,
    run: F,
) -> (r: Result<(), String>)
    requires
        forall|i: int| 0 <= i < commands.len() ==> call_requires(run, (#[trigger] commands@[i], text)),
    ensures
        r is Ok ==> exists|errs: Seq<String>|
            #![trigger errs.len()]
            errs.len() < commands.len() && (forall|j: int|
                0 <= j < errs.len() ==> call_ensures(
                    run,
                    (#[trigger] commands@[j], text),
                    Err(errs[j]),
                )) && call_ensures(run, (commands@[errs.len() as int], text), Ok(())),
        r matches Err(msg) ==> (commands.len() == 0 && msg@
            == "clipboard command is not configured for this platform"@) || (commands.len() > 0
            && exists|errs: Seq<String>|
            errs.len() == commands.len() && (forall|i: int|
                0 <= i < commands.len() ==> call_ensures(
                    run,
                    (#[trigger] commands@[i], text),
                    Err(errs[i]),
                )) && msg@ == unavailable_message(commands@, errs)),
{
    if commands.len() == 0 {
        return Err(owned("clipboard command is not configured for this platform"));
    }
    let mut joined = String::new();
    let ghost mut errs: Seq<String> = seq![];
    let mut i: usize = 0;
    while i < commands.len()
        invariant
            i <= commands.len(),
            commands.len() > 0,
            forall|j: int| 0 <= j < commands.len() ==> call_requires(run, (#[trigger] commands@[j], text)),
            errs.len() == i,
            forall|j: int| 0 <= j < i ==> call_ensures(run, (#[trigger] commands@[j], text), Err(errs[j])),
            joined@ == join(Seq::new(i as nat, |j: int| failure_line(commands@[j], errs[j]@)), "; "@),
        decreases commands.len() - i,
    {
        let c = commands[i];
        let res = run(c, text);
        assert(c == commands@[i as int]);
        assert(call_ensures(run, (c, text), res));
        match &res {
            Ok(u) => {
                assert(*u == ());
                assert(res == Ok::<(), String>(()));
                assert(call_ensures(run, (commands@[i as int], text), Ok::<(), String>(())));
                return Ok(());
            },
            Err(e) => {
                let line = concat2(c.program, ": ");
                let line = concat2(line.as_str(), e.as_str());
                let ghost old_joined = joined@;
                if i == 0 {
                    joined = line;
                } else {
                    joined = concat2(joined.as_str(), "; ");
                    joined = concat2(joined.as_str(), line.as_str());
                }
                proof {
                    let old_errs = errs;
                    errs = errs.push(*e);
                    let parts = Seq::new((i + 1) as nat, |j: int| failure_line(commands@[j], errs[j]@));
                    let prev = Seq::new(i as nat, |j: int| failure_line(commands@[j], old_errs[j]@));
                    assert(parts.drop_last() =~= prev);
                    assert(parts.last() == line@);
                    if i == 0 {
                        assert(join(parts, "; "@) == parts[0]);
                    }
                }
            },
        }
        i += 1;
    }
    let msg = concat2("clipboard unavailable (", joined.as_str());
    let msg = concat2(msg.as_str(), ")");
    assert(msg@ == unavailable_message(commands@, errs));
    Err(msg)
}

} // verus!
