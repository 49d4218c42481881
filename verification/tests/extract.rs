use zipdive::{unzip_file, unzip_outcome, Error, FilePath, ToolCommand};

fn path(text: &str) -> FilePath {
    FilePath::parse(text)
}

fn command(program: &str, line: &str) -> ToolCommand {
    ToolCommand { program: String::from(program), args: vec![String::from("-c"), String::from(line)] }
}

#[test]
fn linux_unpacks_with_7z_through_bash() {
    let got = unzip_file("linux", &path("/src/sub/file.zip"), &path("/out/1/sub/file"), None);
    assert_eq!(got, Ok(command("bash", "7z x \"/src/sub/file.zip\" -o\"/out/1/sub/file\"")));
}

#[test]
fn macos_unpacks_as_linux_does() {
    let got = unzip_file("macos", &path("a.rar"), &path("out/a"), None);
    assert_eq!(got, Ok(command("bash", "7z x \"a.rar\" -o\"out/a\"")));
}

#[test]
fn linux_hands_the_password_on() {
    let got = unzip_file(
        "linux",
        &path("/src/file.zip"),
        &path("/out/1/file"),
        Some(String::from("secret")),
    );
    assert_eq!(got, Ok(command("bash", "7z x \"/src/file.zip\" -o\"/out/1/file\" -p \"secret\"")));
}

#[test]
fn windows_unpacks_with_bandizip_through_powershell() {
    let got = unzip_file("windows", &path("/src/file.zip"), &path("/out/1/file"), None);
    assert_eq!(
        got,
        Ok(command("powershell.exe", "Bandizip.exe x -y  -o:\"/out/1/file\" \"/src/file.zip\""))
    );
    let got = unzip_file(
        "windows",
        &path("/src/file.zip"),
        &path("/out/1/file"),
        Some(String::from("pw")),
    );
    assert_eq!(
        got,
        Ok(command(
            "powershell.exe",
            "Bandizip.exe x -y -p:\"pw\" -o:\"/out/1/file\" \"/src/file.zip\""
        ))
    );
}

#[test]
fn other_systems_have_no_tool() {
    for os in ["freebsd", "android", "", "Linux", "linux ", "ios"] {
        let got = unzip_file(os, &path("/src/file.zip"), &path("/out/1/file"), None);
        assert_eq!(got, Err(Error::SystemNotSupport), "{}", os);
    }
}

#[test]
fn the_tool_decides_by_its_exit() {
    assert_eq!(unzip_outcome(&path("/src/a.zip"), true, String::new()), Ok(()));
    assert_eq!(unzip_outcome(&path("/src/a.zip"), true, String::from("warning")), Ok(()));
    assert_eq!(
        unzip_outcome(&path("/src/a.zip"), false, String::from("Wrong password")),
        Err(Error::ZipError((String::from("Wrong password"), path("/src/a.zip"))))
    );
    assert_eq!(
        unzip_outcome(&path("/src/a.zip"), false, String::new()),
        Err(Error::ZipError((String::new(), path("/src/a.zip"))))
    );
}

#[test]
fn errors_have_messages() {
    assert_eq!(Error::SystemNotSupport.to_string(), "system not support");
    assert_eq!(
        Error::FileNotExists(path("/src/missing")).to_string(),
        "file not exists: \"/src/missing\""
    );
    assert_eq!(Error::SearchFailed.to_string(), "search failed");
    assert_eq!(
        Error::IoError(String::from("permission denied")).to_string(),
        "io error: permission denied"
    );
    assert_eq!(
        Error::ZipError((String::from("bad archive"), path("/src/a.zip"))).to_string(),
        "zip error: bad archive, path: \"/src/a.zip\""
    );
}

#[test]
fn errors_can_be_copied() {
    for error in [
        Error::SystemNotSupport,
        Error::FileNotExists(path("/a")),
        Error::SearchFailed,
        Error::IoError(String::from("x")),
        Error::ZipError((String::from("y"), path("/b.zip"))),
    ] {
        assert_eq!(error.clone(), error);
    }
}
