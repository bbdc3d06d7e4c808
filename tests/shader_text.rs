use terrain_clipmap::shader::{excluded_for, MaterialFeatures, ShaderSection, ShaderSnippets};

fn t(s: &str) -> Vec<char> {
    s.chars().collect()
}

fn s(v: &[char]) -> String {
    v.iter().collect()
}

#[test]
fn reading_names_head_and_inserts() {
    let mut table = ShaderSnippets::new();
    let source = t("head//INSERT: A\nbodyA//INSERT: B\n//INSERT:  \nx//INSERT:C");
    assert!(table.parse_shader(&source, &t("main")));
    assert_eq!(s(table.get(&t("main")).unwrap()), "head");
    assert_eq!(s(table.get(&t("A")).unwrap()), "bodyA");
    assert!(!table.contains(&t("B")));
    assert!(!table.contains(&t("")));
    assert!(!table.contains(&t("C")));
}

#[test]
fn reading_without_a_name_does_nothing() {
    let mut table = ShaderSnippets::new();
    assert!(!table.parse_shader(&t("x//INSERT: A\nbody"), &t("")));
    assert!(!table.contains(&t("A")));
}

#[test]
fn later_snippets_replace_earlier() {
    let mut table = ShaderSnippets::new();
    table.parse_shader(&t("one//INSERT: K\nfirst"), &t("a"));
    table.parse_shader(&t("two//INSERT: K\nsecond"), &t("a"));
    assert_eq!(s(table.get(&t("a")).unwrap()), "two");
    assert_eq!(s(table.get(&t("K")).unwrap()), "second");
}

#[test]
fn ids_are_trimmed_of_unicode_space() {
    let mut table = ShaderSnippets::new();
    table.parse_shader(&t("//INSERT:\u{a0} ID\t\u{3000}\nbody"), &t("n"));
    assert_eq!(s(table.get(&t("ID")).unwrap()), "body");
}

#[test]
fn inserts_expand_unless_skipped() {
    let mut table = ShaderSnippets::new();
    table.insert(t("A"), t("aaa"));
    table.insert(t("DEBUG_X"), t("dbg"));
    table.insert(t("EDITOR_Y"), t("edt"));
    table.insert(t("E"), t("eee"));
    let source = t("top//INSERT: A\n-1-//INSERT: DEBUG_X\n-2-//INSERT: E\n-3-//INSERT: Missing\n-4-//INSERT: EDITOR_Y\n-5-//INSERT: A");
    let out = table.apply_inserts(&source, &vec![t("E")]);
    assert_eq!(s(&out), "topaaa-1--2--3--4--5-");
}

#[test]
fn source_without_markers_is_kept() {
    let table = ShaderSnippets::new();
    let out = table.apply_inserts(&t("plain text\n"), &vec![]);
    assert_eq!(s(&out), "plain text\n");
}

#[test]
fn editor_code_goes_before_the_last_brace() {
    let mut table = ShaderSnippets::new();
    table.insert(t("NAV"), t("N"));
    let out = table.inject_editor_code(&t("a{\nb\n}"), &vec![t("NAV"), t("NONE")]);
    assert_eq!(s(&out), "a{\nb\nN\n}");
}

#[test]
fn editor_code_position_moves_by_code_length() {
    let mut table = ShaderSnippets::new();
    table.insert(t("C"), t("C1"));
    table.insert(t("D"), t("D2"));
    let out = table.inject_editor_code(&t("a{\nb\n}"), &vec![t("C"), t("D")]);
    assert_eq!(s(&out), "a{\nb\nC\nD21\n}");
}

#[test]
fn editor_code_needs_a_closing_brace_past_the_start() {
    let mut table = ShaderSnippets::new();
    table.insert(t("C"), t("code"));
    assert_eq!(s(&table.inject_editor_code(&t("no braces"), &vec![t("C")])), "no braces");
    assert_eq!(s(&table.inject_editor_code(&t("}x"), &vec![t("C")])), "}x");
}

fn ids(f: &MaterialFeatures) -> Vec<String> {
    excluded_for(f).iter().map(|s| s.id_chars().iter().collect()).collect()
}

#[test]
fn sections_left_out_by_default_features() {
    let f = MaterialFeatures { world_noise: false, nearest_filtering: false, auto_shader: false, dual_scaling: false };
    assert_eq!(
        ids(&f),
        vec![
            "WORLD_NOISE1",
            "WORLD_NOISE2",
            "TEXTURE_SAMPLERS_NEAREST",
            "AUTO_SHADER_UNIFORMS",
            "AUTO_SHADER_TEXTURE_ID",
            "DUAL_SCALING_UNIFORMS",
            "DUAL_SCALING_VERTEX",
            "DUAL_SCALING_BASE",
            "DUAL_SCALING_OVERLAY"
        ]
    );
}

#[test]
fn sections_left_out_with_every_feature_on() {
    let f = MaterialFeatures { world_noise: true, nearest_filtering: true, auto_shader: true, dual_scaling: true };
    assert_eq!(ids(&f), vec!["TEXTURE_SAMPLERS_LINEAR", "TEXTURE_ID", "UNI_SCALING_BASE"]);
}

#[test]
fn main_shader_generated_without_excluded_sections() {
    let mut table = ShaderSnippets::new();
    let f = MaterialFeatures { world_noise: false, nearest_filtering: false, auto_shader: true, dual_scaling: true };
    assert!(table.generate_shader_code(&f).is_none());
    table.insert(t("main"), t("a//INSERT: WORLD_NOISE1\nb//INSERT: TEXTURE_SAMPLERS_LINEAR\nc//INSERT: TEXTURE_ID\nd"));
    table.insert(t("WORLD_NOISE1"), t("[noise]"));
    table.insert(t("TEXTURE_SAMPLERS_LINEAR"), t("[linear]"));
    table.insert(t("TEXTURE_ID"), t("[id]"));
    let out = table.generate_shader_code(&f).unwrap();
    assert_eq!(s(&out), "ab[linear]cd");
}

#[test]
fn section_names_are_spelled_out() {
    assert_eq!(s(&ShaderSection::DUAL_SCALING_OVERLAY.id_chars()), "DUAL_SCALING_OVERLAY");
    assert_eq!(s(&ShaderSection::WORLD_NOISE2.id_chars()), "WORLD_NOISE2");
}
