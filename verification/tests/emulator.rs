use mdev::commands::emulator::{
    key_compiles_check, merge_tweaks, parse_registry_path, parse_tweaks, upsert_ini, Eol, UpsertOutcome,
};

fn s(v: &str) -> String {
    v.to_string()
}

fn tw(pairs: &[(&str, &str)]) -> Vec<(String, String)> {
    pairs.iter().map(|(k, v)| (s(k), s(v))).collect()
}

#[test]
fn upsert_missing_key_appends() {
    let input = "foo=1\nbar=2";
    let (out, rep) = upsert_ini(input, &tw(&[("baz", "3")]));
    assert_eq!(out, "foo=1\nbar=2\nbaz=3\n");
    assert_eq!(rep.per_key, vec![(s("baz"), UpsertOutcome::Added)]);
}

#[test]
fn upsert_existing_differs_replaces() {
    let input = "foo=1\nbar=2\n";
    let (out, rep) = upsert_ini(input, &tw(&[("bar", "9")]));
    assert_eq!(out, "foo=1\nbar=9\n");
    assert_eq!(rep.per_key, vec![(s("bar"), UpsertOutcome::Replaced)]);
}

#[test]
fn upsert_existing_identical_unchanged() {
    let input = "foo=1\nbar=2\n";
    let (out, rep) = upsert_ini(input, &tw(&[("bar", "2")]));
    assert_eq!(out, input);
    assert_eq!(rep.per_key, vec![(s("bar"), UpsertOutcome::Unchanged)]);
}

#[test]
fn upsert_preserves_crlf() {
    let input = "foo=1\r\nbar=2\r\n";
    let (out, rep) = upsert_ini(input, &tw(&[("baz", "3")]));
    assert_eq!(out, "foo=1\r\nbar=2\r\nbaz=3\r\n");
    assert_eq!(rep.eol, Eol::Crlf);
}

#[test]
fn upsert_adds_single_trailing_eol_when_missing() {
    let input = "foo=1";
    let (out, _) = upsert_ini(input, &tw(&[("foo", "1")]));
    assert_eq!(out, "foo=1\n");
}

#[test]
fn upsert_collapses_multiple_trailing_eols_to_one() {
    let input = "foo=1\n\n\n";
    let (out, _) = upsert_ini(input, &tw(&[("foo", "1")]));
    assert_eq!(out, "foo=1\n");
}

#[test]
fn upsert_multiple_tweaks_single_pass() {
    let input = "foo=1\n";
    let (out, rep) = upsert_ini(input, &tw(&[("foo", "2"), ("bar", "3")]));
    assert_eq!(out, "foo=2\nbar=3\n");
    assert_eq!(rep.per_key, vec![(s("foo"), UpsertOutcome::Replaced), (s("bar"), UpsertOutcome::Added)]);
}

#[test]
fn upsert_empty_file_appends_with_eol() {
    let input = "";
    let (out, rep) = upsert_ini(input, &tw(&[("foo", "1")]));
    assert_eq!(out, "foo=1\n");
    assert_eq!(rep.per_key, vec![(s("foo"), UpsertOutcome::Added)]);
}

#[test]
fn parse_tweaks_rejects_missing_equals() {
    let err = parse_tweaks(&[s("invalidtoken")]).unwrap_err();
    assert!(err.contains("invalidtoken"));
}

#[test]
fn parse_tweaks_later_duplicate_wins() {
    let out = parse_tweaks(&[s("k=a"), s("k=b")]).unwrap();
    assert_eq!(out, vec![(s("k"), s("b"))]);
}

#[test]
fn parse_registry_path_ignores_path_rel_and_merge() {
    let contents = "path.rel=avd/Pixel_9.avd\npath=/abs/Pixel_9.avd\ntarget=android-37\n";
    assert_eq!(parse_registry_path(contents), Some(s("/abs/Pixel_9.avd")));
    let only_rel = "path.rel=avd/Pixel_9.avd\n";
    assert_eq!(parse_registry_path(only_rel), None);
    let merged = merge_tweaks(&[("showAVDManager", "no")], vec![(s("showAVDManager"), s("yes"))]);
    assert_eq!(merged, vec![(s("showAVDManager"), s("yes"))]);
}

#[test]
fn upsert_escapes_regex_metachars_in_key() {
    let input = "hwXkeyboard=no\nhw.keyboard=no\n";
    let (out, rep) = upsert_ini(input, &tw(&[("hw.keyboard", "yes")]));
    assert_eq!(out, "hwXkeyboard=no\nhw.keyboard=yes\n");
    assert_eq!(rep.per_key, vec![(s("hw.keyboard"), UpsertOutcome::Replaced)]);
}

#[test]
fn upsert_matches_key_with_surrounding_spaces_and_keeps_equal_value() {
    let input = "  hw.ramSize =  2048 \n";
    let (out, rep) = upsert_ini(input, &tw(&[("hw.ramSize", "2048")]));
    assert_eq!(rep.per_key, vec![(s("hw.ramSize"), UpsertOutcome::Unchanged)]);
    assert_eq!(out, "  hw.ramSize =  2048 \n");
}

#[test]
fn upsert_twice_is_unchanged_the_second_time() {
    let input = "foo=1\r\nbar=2\r\n";
    let tweaks = tw(&[("bar", "9"), ("baz", "3")]);
    let (once, _) = upsert_ini(input, &tweaks);
    let (twice, rep) = upsert_ini(&once, &tweaks);
    assert_eq!(once, twice);
    assert!(rep.per_key.iter().all(|(_, o)| *o == UpsertOutcome::Unchanged));
}

#[test]
fn parse_tweaks_trims_keys_keeps_values_and_rejects_empty_key() {
    let out = parse_tweaks(&[s(" hw.gpu.mode = host "), s("a=b=c")]).unwrap();
    assert_eq!(out, vec![(s("hw.gpu.mode"), s(" host ")), (s("a"), s("b=c"))]);
    let err = parse_tweaks(&[s("ok=1"), s(" =x"), s("nokey")]).unwrap_err();
    assert_eq!(err, "invalid --set value:  =x, expected key=value");
}

#[test]
fn merge_tweaks_appends_new_keys_after_defaults() {
    let merged = merge_tweaks(&[("showAVDManager", "no")], vec![(s("hw.keyboard"), s("yes"))]);
    assert_eq!(merged, vec![(s("showAVDManager"), s("no")), (s("hw.keyboard"), s("yes"))]);
}

#[test]
fn upsert_ini_accepts_keys_longer_than_a_thousand_characters() {
    let key = "k".repeat(2000);
    assert!(key_compiles_check(&key));
    let (text, _) = upsert_ini("a=1\n", &[(key.clone(), s("v"))]);
    assert_eq!(text, format!("a=1\n{}=v\n", key));
}
