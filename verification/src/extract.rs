//! Unpacking one archive with the extraction tool of the system: which
//! command does it, and what the way the command ended means.

use vstd::prelude::*;
use vstd::string::*;

use crate::error::{outcome_view, Error, ErrorView};
use crate::path::{FilePath, PathView};

verus! {

/// A command for the program around the engine to run: a program and its arguments.
#[derive(Debug, PartialEq, Eq)]
pub struct ToolCommand {
    pub program: String,
    pub args: Vec<String>,
}

/// A [`ToolCommand`] over plain values.
pub struct ToolCommandView {
    pub program: Seq<char>,
    pub args: Seq<Seq<char>>,
}

impl View for ToolCommand {
    type V = ToolCommandView;

    open spec fn view(&self) -> ToolCommandView {
        ToolCommandView { program: self.program@, args: self.args.deep_view() }
    }
}

/// The line that has 7-Zip unpack `file` into `output_dir`, with the password
/// behind `-p` where there is one.
pub open spec fn seven_zip_line(
    file: Seq<char>,
    output_dir: Seq<char>,
    password: Option<Seq<char>>,
) -> Seq<char> {
    let line = "7z x \""@ + file + "\" -o\""@ + output_dir + "\""@;
    match password {
        Some(word) => line + " -p \""@ + word + "\""@,
        None => line,
    }
}

/// The line that has Bandizip unpack `file` into `output_dir`, with the
/// password behind `-p:` where there is one.
pub open spec fn bandizip_line(
    file: Seq<char>,
    output_dir: Seq<char>,
    password: Option<Seq<char>>,
) -> Seq<char> {
    let password_part = match password {
        Some(word) => "-p:\""@ + word + "\""@,
        None => Seq::empty(),
    };
    "Bandizip.exe x -y "@ + password_part + " -o:\""@ + output_dir + "\" \""@ + file + "\""@
}

/// The command that unpacks `file` into `output_dir` on the system named `os`:
/// Bandizip through PowerShell on `windows`, 7-Zip through bash on `linux` and
/// `macos`. No other system has a tool.
pub open spec fn tool_command(
    os: Seq<char>,
    file: PathView,
    output_dir: PathView,
    password: Option<Seq<char>>,
) -> Result<ToolCommandView, ErrorView> {
    if os == "windows"@ {
        Ok(
            ToolCommandView {
                program: "powershell.exe"@,
                args: seq!["-c"@, bandizip_line(file.text(), output_dir.text(), password)],
            },
        )
    } else if os == "linux"@ || os == "macos"@ {
        Ok(
            ToolCommandView {
                program: "bash"@,
                args: seq!["-c"@, seven_zip_line(file.text(), output_dir.text(), password)],
            },
        )
    } else {
        Err(ErrorView::SystemNotSupport)
    }
}

/// What the end of the tool's run means for the archive `file`: success when
/// the tool says so, else the error that holds what the tool wrote to its
/// error stream.
pub open spec fn tool_outcome(file: PathView, success: bool, stderr: Seq<char>) -> Result<
    (),
    ErrorView,
> {
    if success {
        Ok(())
    } else {
        Err(ErrorView::ZipError(stderr, file))
    }
}

/// A password over plain values.
pub open spec fn password_view(password: Option<String>) -> Option<Seq<char>> {
    match password {
        Some(word) => Some(word@),
        None => None,
    }
}

/// A command, or the error in its place, over plain values.
pub open spec fn command_view(command: Result<ToolCommand, Error>) -> Result<
    ToolCommandView,
    ErrorView,
> {
    match command {
        Ok(command) => Ok(command@),
        Err(error) => Err(error@),
    }
}

fn text_is(text: &str, word: &str) -> (same: bool)
    ensures
        same == (text@ == word@),
{
    String::from_str(text).eq(&String::from_str(word))
}

fn command_of(program: &str, line: String) -> (command: ToolCommand)
    ensures
        command@ == (ToolCommandView { program: program@, args: seq!["-c"@, line@] }),
{
    let mut args: Vec<String> = Vec::new();
    args.push(String::from_str("-c"));
    args.push(line);
    assert(args.deep_view() =~= seq!["-c"@, line@]);
    ToolCommand { program: String::from_str(program), args }
}

/// The command that unpacks `file_path` into `output_dir` on the system named
/// `os`. The program around the engine runs it and reports how it ended to
/// [`unzip_outcome`].
pub fn unzip_file(
    os: &str,
    file_path: &FilePath,
    output_dir: &FilePath,
    password: Option<String>,
) -> (command: Result<ToolCommand, Error>)
    ensures
        command_view(command) == tool_command(
            os@,
            file_path@,
            output_dir@,
            password_view(password),
        ),
{
    let file = file_path.to_string();
    let dir = output_dir.to_string();
    if text_is(os, "windows") {
        let mut line = String::from_str("Bandizip.exe x -y ");
        if let Some(word) = &password {
            line.append("-p:\"");
            line.append(word.as_str());
            line.append("\"");
        }
        line.append(" -o:\"");
        line.append(dir.as_str());
        line.append("\" \"");
        line.append(file.as_str());
        line.append("\"");
        assert(line@ =~= bandizip_line(file@, dir@, password_view(password)));
        Ok(command_of("powershell.exe", line))
    } else if text_is(os, "linux") || text_is(os, "macos") {
        let mut line = String::from_str("7z x \"");
        line.append(file.as_str());
        line.append("\" -o\"");
        line.append(dir.as_str());
        line.append("\"");
        if let Some(word) = &password {
            line.append(" -p \"");
            line.append(word.as_str());
            line.append("\"");
        }
        assert(line@ =~= seven_zip_line(file@, dir@, password_view(password)));
        Ok(command_of("bash", line))
    } else {
        Err(Error::SystemNotSupport)
    }
}

/// What the end of the tool's run means for the archive `file_path`.
/// `success` says whether the tool reported success, `stderr` what it wrote
/// to its error stream.
pub fn unzip_outcome(file_path: &FilePath, success: bool, stderr: String) -> (outcome: Result<
    (),
    Error,
>)
    ensures
        outcome_view(outcome) == tool_outcome(file_path@, success, stderr@),
{
    if success {
        Ok(())
    } else {
        Err(Error::ZipError((stderr, file_path.clone())))
    }
}

} // verus!
