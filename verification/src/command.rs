//! The command lines of the tools that are run on a source file or a project.  A
//! command line is a plain value: the program and its arguments, in order.

use crate::text::texts;
use vstd::prelude::*;
use vstd::string::*;

verus! {

/// A program and the arguments that it is started with.
#[derive(Debug)]
pub struct CommandLine {
    pub program: String,
    pub args: Vec<String>,
}

/// Model of a [`CommandLine`].
pub struct CommandLineView {
    pub program: Seq<char>,
    pub args: Seq<Seq<char>>,
}

impl View for CommandLine {
    type V = CommandLineView;

    open spec fn view(&self) -> CommandLineView {
        CommandLineView {
            program: self.program@,
            args: self.args@.map_values(|arg: String| arg@),
        }
    }
}

/// Appends a copy of each of `more` to `args`.
fn extend_with(args: &mut Vec<String>, more: &Vec<&str>)
    ensures
        final(args)@.map_values(|arg: String| arg@) == old(args)@.map_values(|arg: String| arg@)
            + texts(more@),
{
    let ghost before = args@.map_values(|arg: String| arg@);
    let ghost added = texts(more@);
    let mut i: usize = 0;
    assert(args@.map_values(|arg: String| arg@) =~= before + added.take(0));
    while i < more.len()
        invariant
            i <= more@.len(),
            added == texts(more@),
            args@.map_values(|arg: String| arg@) == before + added.take(i as int),
        decreases more@.len() - i,
    {
        let ghost held = args@.map_values(|arg: String| arg@);
        let arg = more[i].to_owned();
        args.push(arg);
        proof {
            assert(added[i as int] == more@[i as int]@);
            assert(args@.map_values(|arg: String| arg@) =~= held.push(arg@));
            assert(added.take(i + 1) =~= added.take(i as int).push(added[i as int]));
        }
        i += 1;
    }
    assert(added.take(i as int) =~= added);
}

/// The compiler on one file: `rustc`, the arguments, then the file.
pub fn compile_file(file_name: &str, args: &Vec<&str>) -> (command: CommandLine)
    ensures
        command@.program == "rustc"@,
        command@.args == texts(args@) + seq![file_name@],
{
    let mut all: Vec<String> = Vec::new();
    assert(all@.map_values(|arg: String| arg@) =~= Seq::<Seq<char>>::empty());
    extend_with(&mut all, args);
    let ghost held = all@.map_values(|arg: String| arg@);
    all.push(file_name.to_owned());
    assert(all@.map_values(|arg: String| arg@) =~= held.push(file_name@));
    CommandLine { program: String::from_str("rustc"), args: all }
}

/// The arguments of a cargo run on a project: the subcommand, the arguments given,
/// the manifest path as `--manifest-path=<path>`, and the request for JSON messages.
pub open spec fn cargo_args(
    subcommand: Seq<char>,
    manifest_path: Seq<char>,
    extra: Seq<Seq<char>>,
) -> Seq<Seq<char>> {
    seq![subcommand] + extra + seq![
        "--manifest-path="@ + manifest_path,
        "--message-format=json"@,
    ]
}

/// A cargo run of `subcommand` on the project of `manifest_path`.
fn cargo_command(subcommand: &str, manifest_path: &str, extra: &Vec<&str>) -> (command:
    CommandLine)
    ensures
        command@.program == "cargo"@,
        command@.args == cargo_args(subcommand@, manifest_path@, texts(extra@)),
{
    let mut all: Vec<String> = Vec::new();
    all.push(subcommand.to_owned());
    assert(all@.map_values(|arg: String| arg@) =~= seq![subcommand@]);
    extend_with(&mut all, extra);
    let mut toml = String::from_str("--manifest-path=");
    toml.append(manifest_path);
    let ghost held = all@.map_values(|arg: String| arg@);
    all.push(toml);
    all.push(String::from_str("--message-format=json"));
    assert(all@.map_values(|arg: String| arg@) =~= held + seq![
        "--manifest-path="@ + manifest_path@,
        "--message-format=json"@,
    ]);
    CommandLine { program: String::from_str("cargo"), args: all }
}

/// `cargo check` on a project, with JSON messages.
pub fn check_project(manifest_path: &str, cargo_args: &Vec<&str>) -> (command: CommandLine)
    ensures
        command@.program == "cargo"@,
        command@.args == self::cargo_args("check"@, manifest_path@, texts(cargo_args@)),
{
    cargo_command("check", manifest_path, cargo_args)
}

/// `cargo build` on a project, with JSON messages.
pub fn build_project(manifest_path: &str, cargo_args: &Vec<&str>) -> (command: CommandLine)
    ensures
        command@.program == "cargo"@,
        command@.args == self::cargo_args("build"@, manifest_path@, texts(cargo_args@)),
{
    cargo_command("build", manifest_path, cargo_args)
}

/// The formatter that canonical text comes from: `bin/rustfmt` under cargo's home,
/// for the 2021 edition.  It reads the source on its input and writes the formatted
/// source to its output.
pub fn formatter_command(cargo_home: &str) -> (command: CommandLine)
    ensures
        command@.program == cargo_home@ + "/bin/rustfmt"@,
        command@.args == seq!["--edition=2021"@],
{
    let mut program = cargo_home.to_owned();
    program.append("/bin/rustfmt");
    let mut args: Vec<String> = Vec::new();
    args.push(String::from_str("--edition=2021"));
    assert(args@.map_values(|arg: String| arg@) =~= seq!["--edition=2021"@]);
    CommandLine { program, args }
}

} // verus!
