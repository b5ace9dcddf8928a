use mmstack_setup::inject::{inject_weights_only, patch_torch_load_single_line};
use mmstack_setup::version::patch_get_version_function;

fn injected(line: &str) -> (String, bool) {
    let (out, any) = inject_weights_only(&line.as_bytes().to_vec());
    (String::from_utf8(out).unwrap(), any)
}

fn patched_file(content: &str) -> Option<String> {
    patch_torch_load_single_line(content.as_bytes()).map(|v| String::from_utf8(v).unwrap())
}

fn version_file(content: &str, version: &str) -> Option<String> {
    patch_get_version_function(content.as_bytes(), version).map(|v| String::from_utf8(v).unwrap())
}

#[test]
fn single_argument_call_gets_keyword() {
    let (out, any) = injected("    ckpt = torch.load(path)");
    assert!(any);
    assert_eq!(out, "    ckpt = torch.load(path, weights_only=False)");
    assert_eq!(out.matches(", weights_only=False").count(), 1);
}

#[test]
fn keyword_goes_before_first_closing_paren() {
    let (out, any) = injected("x = torch.load(open(p), map_location='cpu')");
    assert!(any);
    assert_eq!(out, "x = torch.load(open(p, weights_only=False), map_location='cpu')");
}

#[test]
fn every_call_on_a_line_is_patched() {
    let (out, any) = injected("a = torch.load(x); b = torch.load(y)");
    assert!(any);
    assert_eq!(
        out,
        "a = torch.load(x, weights_only=False); b = torch.load(y, weights_only=False)"
    );
}

#[test]
fn call_with_marker_is_skipped() {
    let (out, any) = injected("m = torch.load(f, weights_only=True)");
    assert!(!any);
    assert_eq!(out, "m = torch.load(f, weights_only=True)");
}

#[test]
fn unclosed_call_is_left_alone() {
    let (out, any) = injected("state = torch.load(");
    assert!(!any);
    assert_eq!(out, "state = torch.load(");
}

#[test]
fn line_without_call_is_unchanged() {
    let (out, any) = injected("import torch");
    assert!(!any);
    assert_eq!(out, "import torch");
}

#[test]
fn file_is_rewritten_with_trailing_newline() {
    let out = patched_file("import torch\nm = torch.load(p)").unwrap();
    assert_eq!(out, "import torch\nm = torch.load(p, weights_only=False)\n");
}

#[test]
fn crlf_lines_are_written_back_with_lf() {
    let out = patched_file("a = 1\r\nm = torch.load(p)\r\n").unwrap();
    assert_eq!(out, "a = 1\nm = torch.load(p, weights_only=False)\n");
}

#[test]
fn file_without_calls_is_untouched() {
    assert_eq!(patched_file("import torch\nprint(1)\n"), None);
    assert_eq!(patched_file(""), None);
}

#[test]
fn second_pass_inserts_nothing() {
    let once = patched_file("x = torch.load(a)\ny = torch.load(b, weights_only=True)\n").unwrap();
    assert_eq!(once, "x = torch.load(a, weights_only=False)\ny = torch.load(b, weights_only=True)\n");
    assert_eq!(patched_file(&once), None);
    let (again, any) = injected("x = torch.load(a, weights_only=False)");
    assert!(!any);
    assert_eq!(again, "x = torch.load(a, weights_only=False)");
}

const SETUP_PY: &str = "import os\n\
def get_version():\n\
    with open(version_file) as f:\n\
        exec(compile(f.read(), version_file, 'exec'))\n\
    return locals()['__version__']\n\
\n\
setup(name='mmaction2')\n";

#[test]
fn version_accessor_becomes_two_lines() {
    let out = version_file(SETUP_PY, "1.2.0").unwrap();
    assert_eq!(
        out,
        "import os\ndef get_version():\n    return '1.2.0'\n\nsetup(name='mmaction2')\n"
    );
    assert_eq!(out.lines().count(), SETUP_PY.lines().count() - 2);
}

#[test]
fn header_with_trailing_whitespace_matches() {
    let content = "def get_version():  \t\n    a\n    b\n    c\nrest\n";
    let out = version_file(content, "0.10.7").unwrap();
    assert_eq!(out, "def get_version():\n    return '0.10.7'\nrest\n");
    let wide = "def get_version():\u{a0}\u{3000}\n    a\n    b\n    c\n";
    assert_eq!(version_file(wide, "1").unwrap(), "def get_version():\n    return '1'\n");
}

#[test]
fn indented_header_does_not_match() {
    let content = "    def get_version():\n    a\n    b\n    c\n";
    assert_eq!(version_file(content, "1.2.0"), None);
}

#[test]
fn missing_header_leaves_file() {
    assert_eq!(version_file("setup()\n", "1.2.0"), None);
}

#[test]
fn short_accessor_leaves_file() {
    assert_eq!(version_file("x\ndef get_version():\n    a\n    b\n", "1.2.0"), None);
}

#[test]
fn only_first_header_is_rewritten() {
    let content = "def get_version():\n1\n2\n3\ndef get_version():\n4\n5\n6\n";
    let out = version_file(content, "9").unwrap();
    assert_eq!(out, "def get_version():\n    return '9'\ndef get_version():\n4\n5\n6\n");
}
