use credsubst::engine::{needed_paths, passthrough, resolve_content, substitute};
use credsubst::errors::{PatternError, SubstError};
use credsubst::index::{CredentialIndex, SecretStore};
use credsubst::pattern::Pattern;

const DEFAULT_PATTERN: &str = r"\$\{(?P<id>[^\$\{\}/]+)\}";

fn pattern(src: &str) -> Pattern {
    match Pattern::parse(src) {
        Ok(p) => p,
        Err(_) => panic!("pattern should be accepted"),
    }
}

fn index(entries: &[(&str, &str)]) -> CredentialIndex {
    let list: Vec<(Vec<u8>, Vec<u8>)> = entries
        .iter()
        .map(|(name, path)| (name.as_bytes().to_vec(), path.as_bytes().to_vec()))
        .collect();
    CredentialIndex::from_entries(list)
}

fn store(entries: &[(&str, &str)]) -> SecretStore {
    let list: Vec<(Vec<u8>, String)> = entries
        .iter()
        .map(|(path, content)| (path.as_bytes().to_vec(), content.to_string()))
        .collect();
    SecretStore::from_entries(list)
}

fn run(input: &str, idx: &CredentialIndex, st: &SecretStore, escape: bool) -> Result<String, SubstError> {
    let p = pattern(DEFAULT_PATTERN);
    substitute(input.as_bytes(), &p, idx, st, escape)
        .map(|out| String::from_utf8(out).expect("output should be text"))
}

#[test]
fn rejects_invalid_pattern() {
    let r = Pattern::parse("wurzel(pfropf");
    assert!(matches!(r, Err(PatternError::InvalidRegex(_))));
}

#[test]
fn rejects_valid_pattern_without_id() {
    let r = Pattern::parse("wurzelpfropf");
    assert!(matches!(r, Err(PatternError::MissingIdGroup)));
}

#[test]
fn copy_if_no_creds() {
    let input = "${wurzelpfropf}\n";
    let out = passthrough(input.as_bytes());
    assert_eq!(out, input.as_bytes().to_vec());
}

#[test]
fn basic() {
    let idx = index(&[("yaxi-license", "/creds/yaxi-license")]);
    let st = store(&[("/creds/yaxi-license", "hunter1\n\n")]);
    let input = "{\n    \"wurzel\": \"pfropf\",\n    \"license\": \"${yaxi-license}\",\n    \"wuff\": \"c://msdog\",\n    \"password\": \"secret-password:${/with-special-chars}\"\n}\n";
    let expected = "{\n    \"wurzel\": \"pfropf\",\n    \"license\": \"hunter1\",\n    \"wuff\": \"c://msdog\",\n    \"password\": \"secret-password:${/with-special-chars}\"\n}\n";
    assert_eq!(run(input, &idx, &st, false).unwrap(), expected);
}

#[test]
fn exact_splice() {
    let idx = index(&[("X", "/creds/X")]);
    let st = store(&[("/creds/X", "secret\n")]);
    assert_eq!(run("A${X}B", &idx, &st, false).unwrap(), "AsecretB");
}

#[test]
fn newline_escaping() {
    let idx = index(&[("K", "/creds/K")]);
    let st = store(&[("/creds/K", "a\nb\n")]);
    assert_eq!(run("${K}", &idx, &st, true).unwrap(), "a\\nb");
    assert_eq!(resolve_content("a\nb\n", true), "a\\nb".as_bytes().to_vec());
}

#[test]
fn trailing_trim() {
    let idx = index(&[("K", "/creds/K")]);
    let st = store(&[("/creds/K", "hunter1\n\n")]);
    assert_eq!(run("${K}", &idx, &st, false).unwrap(), "hunter1");
    assert_eq!(run("${K}", &idx, &st, true).unwrap(), "hunter1");
}

#[test]
fn whitespace_only_secret_substitutes_to_empty() {
    let idx = index(&[("K", "/creds/K")]);
    let st = store(&[("/creds/K", " \n\t\n")]);
    assert_eq!(run("a${K}b", &idx, &st, false).unwrap(), "ab");
}

#[test]
fn multiple_independent_matches() {
    let idx = index(&[("A", "/creds/A"), ("B", "/creds/B")]);
    let st = store(&[("/creds/A", "one\n"), ("/creds/B", "two\n")]);
    assert_eq!(
        run("x=${A}; y=${B};", &idx, &st, false).unwrap(),
        "x=one; y=two;"
    );
}

#[test]
fn same_identifier_resolved_per_occurrence() {
    let idx = index(&[("X", "/creds/X")]);
    let st = store(&[("/creds/X", "v")]);
    assert_eq!(run("${X}-${X}", &idx, &st, false).unwrap(), "v-v");
}

#[test]
fn unknown_identifier_passes_through() {
    let idx = index(&[]);
    let st = store(&[]);
    assert_eq!(run("a ${nope} b", &idx, &st, false).unwrap(), "a ${nope} b");
}

#[test]
fn no_match_identity() {
    let idx = index(&[("X", "/creds/X")]);
    let st = store(&[("/creds/X", "secret")]);
    let input = "no placeholders here, only $ and { apart }";
    assert_eq!(run(input, &idx, &st, false).unwrap(), input);
}

#[test]
fn empty_input_yields_empty_output() {
    let idx = index(&[]);
    let st = store(&[]);
    assert_eq!(run("", &idx, &st, false).unwrap(), "");
}

#[test]
fn unreadable_secret_aborts() {
    let idx = index(&[("yaxi-license", "/creds/yaxi-license")]);
    let st = store(&[]);
    let r = run("license=${yaxi-license}", &idx, &st, false);
    match r {
        Err(SubstError::SecretUnreadable(path)) => {
            assert_eq!(path, "/creds/yaxi-license".as_bytes().to_vec());
        }
        _ => panic!("an unreadable secret must abort the substitution"),
    }
}

#[test]
fn missing_id_capture_aborts() {
    let p = pattern("(?P<id>a)?b");
    let idx = index(&[("a", "/creds/a")]);
    let st = store(&[("/creds/a", "v")]);
    let r = substitute("zb".as_bytes(), &p, &idx, &st, false);
    assert!(matches!(r, Err(SubstError::MissingIdCapture)));
}

#[test]
fn directory_index_excludes_nested_content() {
    // The listing of the credentials directory holds only its immediate
    // children; a file inside the subdirectory never appears in it.
    let idx = index(&[("sub", "/creds/sub"), ("top", "/creds/top")]);
    let st = store(&[("/creds/top", "t\n")]);
    assert!(idx.lookup("inner".as_bytes()).is_none());
    assert_eq!(
        run("${inner} ${top}", &idx, &st, false).unwrap(),
        "${inner} t"
    );
}

#[test]
fn later_entry_wins() {
    let idx = index(&[("k", "/creds/old"), ("k", "/creds/new")]);
    assert_eq!(
        idx.lookup("k".as_bytes()).map(|p| p.clone()),
        Some("/creds/new".as_bytes().to_vec())
    );
}

#[test]
fn needed_paths_lists_indexed_matches() {
    let idx = index(&[("X", "/creds/X")]);
    let p = pattern(DEFAULT_PATTERN);
    let paths = needed_paths("A${X}B${Y}${X}".as_bytes(), &p, &idx);
    assert_eq!(
        paths,
        vec!["/creds/X".as_bytes().to_vec(), "/creds/X".as_bytes().to_vec()]
    );
}

#[test]
fn accepts_default_pattern() {
    let p = Pattern::parse(DEFAULT_PATTERN);
    assert!(p.is_ok());
}
