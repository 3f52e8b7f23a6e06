use replay_renderer::fonts::{
    configured_legacy_font_paths_for_weight, configured_weight_path, fallback_font_weight,
    font_path_candidates_for_weight, font_ref_matches, font_weight_candidate_numbers,
    font_weight_number, fontsource_file_candidates, fontsource_package_candidates,
    fontsource_package_files_dir, fontsource_search_dirs, load_font_arc_from_bytes,
    node_modules_candidates, normalize_font_lookup_key, normalized_family_key,
    push_unique_font_candidate, is_woff2_font, FontWeight, HudFontRefConfig,
};

fn font(id: &str, family: &str) -> HudFontRefConfig {
    HudFontRefConfig {
        id: id.to_string(),
        family: family.to_string(),
        css_family: None,
        weight_paths: vec![],
        path: None,
        bold_path: None,
        normal_path: None,
        package_name: None,
    }
}

#[test]
fn weights_fall_back_to_normal_or_bold() {
    assert_eq!(fallback_font_weight(599), FontWeight::Normal);
    assert_eq!(fallback_font_weight(600), FontWeight::Bold);
    assert_eq!(font_weight_number(FontWeight::Normal), 400);
    assert_eq!(font_weight_number(FontWeight::Bold), 700);
}

#[test]
fn lookup_keys_ignore_quotes_case_and_variable_suffix() {
    assert_eq!(normalize_font_lookup_key("  \"Noto Sans JP\" "), "noto sans jp");
    assert_eq!(normalize_font_lookup_key("'Inter Variable'"), "inter");
    assert_eq!(normalize_font_lookup_key("Roboto  VARIABLE"), "roboto");
    assert_eq!(normalize_font_lookup_key(" variable"), "variable");
    assert_eq!(normalized_family_key(Some("Arial")), "arial");
    assert_eq!(normalized_family_key(None), "");
}

#[test]
fn fonts_match_any_entry_of_a_family_list() {
    let mut f = font("inter", "Inter");
    f.css_family = Some("'Inter Variable', sans-serif".to_string());
    assert!(font_ref_matches(&f, "Arial, \"Inter\""));
    assert!(font_ref_matches(&f, "INTER VARIABLE"));
    assert!(!font_ref_matches(&f, "Arial, sans-serif"));
    assert!(!font_ref_matches(&f, ""));
    let blank = font("", "");
    assert!(!font_ref_matches(&blank, ", ,"));
}

#[test]
fn configured_weight_paths_prefer_exact_then_nearest() {
    let mut f = font("x", "X");
    f.weight_paths = vec![
        ("300".to_string(), "light.ttf".to_string()),
        ("700".to_string(), "bold.ttf".to_string()),
        ("heavy".to_string(), "junk.ttf".to_string()),
        ("500".to_string(), "medium.ttf".to_string()),
    ];
    assert_eq!(configured_weight_path(&f, 700), Some("bold.ttf"));
    assert_eq!(configured_weight_path(&f, 650), Some("bold.ttf"));
    assert_eq!(configured_weight_path(&f, 450), Some("medium.ttf"));
    assert_eq!(configured_weight_path(&f, 100), Some("light.ttf"));
    f.weight_paths.clear();
    assert_eq!(configured_weight_path(&f, 400), None);
}

#[test]
fn legacy_paths_put_the_matching_style_first() {
    let mut f = font("x", "X");
    f.path = Some("regular.ttf".to_string());
    f.bold_path = Some("bold.ttf".to_string());
    assert_eq!(configured_legacy_font_paths_for_weight(&f, 700), vec!["bold.ttf", "regular.ttf"]);
    f.normal_path = Some("normal.ttf".to_string());
    assert_eq!(
        configured_legacy_font_paths_for_weight(&f, 400),
        vec!["normal.ttf", "regular.ttf", "bold.ttf"]
    );
}

#[test]
fn candidates_skip_blanks_and_repeats() {
    let mut paths = vec!["a".to_string()];
    push_unique_font_candidate(&mut paths, "b".to_string());
    push_unique_font_candidate(&mut paths, "a".to_string());
    push_unique_font_candidate(&mut paths, "  ".to_string());
    push_unique_font_candidate(&mut paths, "".to_string());
    assert_eq!(paths, vec!["a", "b"]);
}

#[test]
fn fontsource_packages_and_files() {
    let mut f = font(" noto-sans-jp ", "Noto Sans JP");
    assert_eq!(fontsource_package_candidates(&f), vec!["@fontsource/noto-sans-jp"]);
    f.package_name = Some("@fontsource-variable/noto-sans-jp".to_string());
    assert_eq!(
        fontsource_package_candidates(&f),
        vec!["@fontsource/noto-sans-jp", "@fontsource-variable/noto-sans-jp"]
    );
    f.package_name = Some("@fontsource/noto-sans-jp".to_string());
    assert_eq!(fontsource_package_candidates(&f), vec!["@fontsource/noto-sans-jp"]);
    assert_eq!(font_weight_candidate_numbers(700), vec![700, 800, 600, 500, 400, 300]);
    assert_eq!(font_weight_candidate_numbers(400), vec![400, 500, 300, 600, 700, 800]);
    assert_eq!(font_weight_candidate_numbers(100), vec![100, 400, 500, 300, 600, 700, 800]);
    let names = fontsource_file_candidates("inter", 400);
    assert_eq!(names.len(), 5 * 6 + 6);
    assert_eq!(names[0], "inter-japanese-400-normal.woff2");
    assert_eq!(names[6], "inter-latin-400-normal.woff2");
    assert_eq!(names[12], "inter-latin-ext-400-normal.woff2");
    assert_eq!(names[18], "inter-0-400-normal.woff2");
    assert_eq!(names[24], "inter-1-400-normal.woff2");
    assert_eq!(names[29], "inter-1-800-normal.woff2");
    assert_eq!(names[30], "inter-japanese-wght-normal.woff2");
    assert_eq!(names[35], "inter-latin-ext-wght-normal.woff2");
}

#[test]
fn search_directories_are_built_from_roots_and_packages() {
    assert_eq!(
        fontsource_package_files_dir("/app/node_modules", "@fontsource/inter"),
        "/app/node_modules/@fontsource/inter/files"
    );
    assert_eq!(fontsource_package_files_dir("/", "//a//b/"), "/a/b/files");
    assert_eq!(fontsource_package_files_dir("", "pkg"), "pkg/files");
    assert_eq!(
        node_modules_candidates("/srv"),
        vec![
            "/srv/node_modules",
            "/srv/frontend/node_modules",
            "/srv/Miru Renderer Web/frontend/node_modules"
        ]
    );
    assert_eq!(node_modules_candidates("/")[0], "/node_modules");
    let mut f = font("inter", "Inter");
    f.package_name = Some("custom/inter".to_string());
    let roots = vec!["/r1".to_string(), "/r2/".to_string()];
    assert_eq!(
        fontsource_search_dirs(&f, &roots),
        vec![
            "/r1/@fontsource/inter/files",
            "/r1/custom/inter/files",
            "/r2/@fontsource/inter/files",
            "/r2/custom/inter/files"
        ]
    );
    assert!(fontsource_search_dirs(&font(" ", "Inter"), &roots).is_empty());
}

#[test]
fn path_candidates_combine_configured_found_and_legacy_paths() {
    let mut f = font("inter", "Inter");
    f.weight_paths = vec![("700".to_string(), "bold.ttf".to_string())];
    f.path = Some("regular.ttf".to_string());
    f.bold_path = Some("bold.ttf".to_string());
    let found = vec!["/r/inter-latin-700-normal.woff2".to_string(), "bold.ttf".to_string()];
    assert_eq!(
        font_path_candidates_for_weight(&f, 700, &found),
        vec!["bold.ttf", "/r/inter-latin-700-normal.woff2", "regular.ttf"]
    );
    assert!(font_path_candidates_for_weight(&font("", ""), 400, &vec![]).is_empty());
}

fn be16(out: &mut Vec<u8>, v: u16) {
    out.extend_from_slice(&v.to_be_bytes());
}

fn be32(out: &mut Vec<u8>, v: u32) {
    out.extend_from_slice(&v.to_be_bytes());
}

/// A TrueType file holding just the three tables a parser requires.
fn minimal_truetype() -> Vec<u8> {
    let mut head = vec![0u8; 54];
    head[18..20].copy_from_slice(&1000u16.to_be_bytes());
    let mut hhea = vec![0u8; 36];
    hhea[34..36].copy_from_slice(&1u16.to_be_bytes());
    let mut maxp = Vec::new();
    be32(&mut maxp, 0x0000_5000);
    be16(&mut maxp, 1);
    let tables: [(&[u8; 4], &Vec<u8>); 3] = [(b"head", &head), (b"hhea", &hhea), (b"maxp", &maxp)];
    let mut out = Vec::new();
    be32(&mut out, 0x0001_0000);
    be16(&mut out, 3);
    be16(&mut out, 32);
    be16(&mut out, 1);
    be16(&mut out, 16);
    let mut offset = 12 + 16 * tables.len() as u32;
    for (tag, data) in tables.iter() {
        out.extend_from_slice(&tag[..]);
        be32(&mut out, 0);
        be32(&mut out, offset);
        be32(&mut out, data.len() as u32);
        offset += data.len() as u32;
    }
    for (_, data) in tables.iter() {
        out.extend_from_slice(data);
    }
    out
}

fn decode_with_crate(bytes: Vec<u8>) -> Result<Vec<u8>, String> {
    woff2_patched::convert_woff2_to_ttf(&mut std::io::Cursor::new(bytes.as_slice()))
        .map_err(|err| err.to_string())
}

#[test]
fn font_bytes_load_when_the_parser_accepts_them() {
    assert!(load_font_arc_from_bytes(minimal_truetype(), decode_with_crate, "mini.ttf").is_ok());
}

#[test]
fn unparseable_fonts_are_rejected_with_the_file_name() {
    match load_font_arc_from_bytes(b"not a font".to_vec(), decode_with_crate, "broken.ttf") {
        Err(msg) => assert_eq!(msg, "font parser rejected broken.ttf"),
        Ok(_) => panic!("garbage must not load"),
    }
}

#[test]
fn woff2_files_are_decoded_first() {
    let mut truncated = b"wOF2".to_vec();
    truncated.extend_from_slice(&[0u8; 8]);
    match load_font_arc_from_bytes(truncated, decode_with_crate, "cut.woff2") {
        Err(msg) => assert!(
            msg.starts_with("failed to decode WOFF2 cut.woff2: "),
            "unexpected message: {msg}"
        ),
        Ok(_) => panic!("a truncated WOFF2 file must not load"),
    }
}

#[test]
fn woff2_files_are_parsed_from_what_the_decoder_gives() {
    let file = b"wOF2 packed".to_vec();
    let loaded = load_font_arc_from_bytes(file, |_| Ok(minimal_truetype()), "packed.woff2");
    assert!(loaded.is_ok());
}

#[test]
fn woff2_decoder_failures_are_reported_with_the_file_name() {
    let file = b"wOF2 packed".to_vec();
    match load_font_arc_from_bytes(file, |_| Err("bad stream".to_string()), "packed.woff2") {
        Err(msg) => assert_eq!(msg, "failed to decode WOFF2 packed.woff2: bad stream"),
        Ok(_) => panic!("a failed decode must not load"),
    }
}

#[test]
fn plain_font_files_skip_the_decoder() {
    let loaded = load_font_arc_from_bytes(
        minimal_truetype(),
        |_| -> Result<Vec<u8>, String> { panic!("only WOFF2 files are decoded") },
        "mini.ttf",
    );
    assert!(loaded.is_ok());
}

#[test]
fn woff2_files_are_recognised_by_their_signature() {
    assert!(is_woff2_font(b"wOF2\x00\x01"));
    assert!(!is_woff2_font(b"wOFF\x00\x01"));
    assert!(!is_woff2_font(b"wOF"));
}
