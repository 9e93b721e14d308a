//! The tool registry, prompt composition, and the scripting tool's pure
//! parts.
use chat_ui::chat::{choose_lang, LangSel};
use chat_ui::interp::{
    bytes_preview, parse_sourcecode_args, strip_markdown_fences, u64_to_dec, wrap_text_to_svg,
    Schema,
};
use chat_ui::registry::{
    compose_final_prompt, wrap_tool_result, SystemPromptTemplates, ToolDescription, ToolKind,
    ToolOutcome, ToolSet,
};
use chat_ui::sandbox::{generate_cheatsheet_prompt, generate_libs_list, get_setup_script};
use chat_ui::schema::{MessageContent, Role, ToolUse};
use chat_ui::parser::marker_bytes;

fn desc(model_name: &str, human: &str) -> ToolDescription {
    ToolDescription {
        name_for_model: model_name.as_bytes().to_vec(),
        name_for_human: human.as_bytes().to_vec(),
        description_for_model: b"does things".to_vec(),
        parameters: b"{\"type\":\"object\"}".to_vec(),
        args_format: b"JSON".to_vec(),
    }
}

fn contains(hay: &[u8], needle: &[u8]) -> bool {
    hay.windows(needle.len()).any(|w| w == needle)
}

#[test]
fn registration_last_wins() {
    let set = ToolSet::builder()
        .add_tool(b"zoom".to_vec(), desc("zoom", "old"))
        .add_tool(b"fetch".to_vec(), desc("fetch", "fetcher"))
        .add_tool(b"zoom".to_vec(), desc("zoom", "new"))
        .build();
    assert_eq!(set.tools.len(), 2);
    let d = set.find_tool(&b"zoom".to_vec()).expect("registered");
    assert_eq!(d.name_for_human, b"new".to_vec());
    assert!(set.find_tool(&b"missing".to_vec()).is_none());
    assert_eq!(set.list_tools().len(), 2);
}

#[test]
fn system_prompt_fills_every_placeholder() {
    let set = ToolSet::builder()
        .add_tool(b"zoom".to_vec(), desc("zoom", "zoomer"))
        .add_tool(b"fetch".to_vec(), desc("fetch", "fetcher"))
        .build();
    let templates = SystemPromptTemplates {
        assistant_desc_template: b"persona on {CURRENT_DATE}".to_vec(),
        tool_info_template: b"tools: {tool_descs}".to_vec(),
        parallel_call_template: b"par {tool_names} {FN_NAME} {FN_ARGS} {FN_RESULT} {FN_EXIT}"
            .to_vec(),
        single_call_template: b"one {tool_names} {FN_NAME}".to_vec(),
    };
    let date = b"2024-05-06".to_vec();
    let p = set.system_prompt(&templates, &date, true);
    assert!(contains(&p, b"persona on 2024-05-06"));
    assert!(contains(&p, b"zoom,fetch"));
    assert!(contains(&p, &marker_bytes(0)));
    assert!(contains(&p, &marker_bytes(1)));
    assert!(contains(&p, &marker_bytes(2)));
    assert!(contains(&p, &marker_bytes(3)));
    assert!(contains(&p, b"### zoomer"));
    assert!(!contains(&p, b"{tool_descs}"));
    let single = set.system_prompt(&templates, &date, false);
    assert!(contains(&single, b"one zoom,fetch"));
    // a non-blank custom prefix stands before the capabilities divider
    let full = compose_final_prompt(Some(&b"be brief".to_vec()), p.clone());
    assert!(contains(&full, b"be brief\n\n--- System Capabilities ---\n"));
    let blank = compose_final_prompt(Some(&b"   ".to_vec()), p.clone());
    assert_eq!(blank, p);
}

#[test]
fn tool_result_wrapping() {
    let tu = ToolUse { use_id: 5, function_name: b"zoom".to_vec(), args: b"{}".to_vec() };
    let ok = wrap_tool_result(
        &tu,
        ToolOutcome::Output(vec![MessageContent::Text(b"fine".to_vec())]),
        77,
    );
    assert!(matches!(ok.owner, Role::Tools(5)));
    assert_eq!(ok.id, 77);
    assert!(matches!(&ok.content[0], MessageContent::Text(t) if t == &b"fine".to_vec()));
    let failed = wrap_tool_result(&tu, ToolOutcome::Failure(b"boom".to_vec()), 78);
    match &failed.content[0] {
        MessageContent::Text(t) => {
            assert!(contains(t, b"zoom"));
            assert!(contains(t, b"boom"));
        },
        _ => panic!("failure text expected"),
    }
    let unknown = wrap_tool_result(&tu, ToolOutcome::Unknown, 79);
    match &unknown.content[0] {
        MessageContent::Text(t) => assert!(contains(t, b"zoom")),
        _ => panic!("unknown-tool text expected"),
    }
}

#[test]
fn tool_kind_names() {
    assert_eq!(
        ToolKind::default_tools_str(),
        "zoom_in,image_memo,draw_bbox,js_interpreter,curl"
    );
    assert_eq!(ToolKind::Curl.text(), "curl");
}

#[test]
fn schema_words_classify() {
    assert!(matches!(Schema::parse(b" IMAGE "), Ok(Schema::Image)));
    assert!(matches!(Schema::parse(b"png"), Ok(Schema::Image)));
    assert!(matches!(Schema::parse(b"bin"), Ok(Schema::Asset)));
    assert!(matches!(Schema::parse(b"Binary"), Ok(Schema::Asset)));
    assert!(Schema::parse(b"tarball").is_err());
}

#[test]
fn fences_strip_language_tags() {
    let (fenced, code) = strip_markdown_fences(&b"```json\n{\"a\":1}\n```".to_vec());
    assert!(fenced);
    assert_eq!(code, b"{\"a\":1}".to_vec());
    // a first line with punctuation is code, not a tag
    let (fenced2, code2) = strip_markdown_fences(&b"```let x = 1;\nx + 1\n```".to_vec());
    assert!(fenced2);
    assert_eq!(code2, b"let x = 1;\nx + 1".to_vec());
    let (tick, span) = strip_markdown_fences(&b"`1 + 1`".to_vec());
    assert!(!tick);
    assert_eq!(span, b"1 + 1".to_vec());
    let (plain, text) = strip_markdown_fences(&b"  raw code  ".to_vec());
    assert!(!plain);
    assert_eq!(text, b"raw code".to_vec());
}

#[test]
fn sourcecode_args_accept_fences_and_json() {
    let fenced = parse_sourcecode_args(&b"```js\nreturn 1\n```".to_vec()).unwrap();
    assert_eq!(fenced.0, b"return 1".to_vec());
    let json = parse_sourcecode_args(&b"\"return 2\"".to_vec()).unwrap();
    assert_eq!(json.0, b"return 2".to_vec());
    // YAML takes over when JSON refuses
    let yaml = parse_sourcecode_args(&b"return 3".to_vec()).unwrap();
    assert_eq!(yaml.0, b"return 3".to_vec());
}

#[test]
fn hex_preview_is_spaced_lowercase() {
    assert_eq!(bytes_preview(&[0x00, 0xff, 0x1a]), "00 ff 1a");
    assert_eq!(bytes_preview(&[]), "");
    // only the first 32 bytes show
    let long = [0xabu8; 40];
    let p = bytes_preview(&long);
    assert_eq!(p.split(' ').count(), 32);
}

#[test]
fn decimal_rendering() {
    assert_eq!(u64_to_dec(0), b"0".to_vec());
    assert_eq!(u64_to_dec(45), b"45".to_vec());
    assert_eq!(u64_to_dec(1200300), b"1200300".to_vec());
}

#[test]
fn svg_panel_wraps_and_escapes() {
    let (svg, height) = wrap_text_to_svg(&b"a<b&c>d".to_vec(), 1024).expect("fits");
    assert_eq!(height, 70);  // one line: 30 + 40
    let s = String::from_utf8(svg).unwrap();
    assert!(s.starts_with("<svg width=\"1024\" height=\"70\""));
    assert!(s.contains("a&lt;b&amp;c&gt;d"));
    assert!(s.ends_with("</g></svg>"));
    // two paragraphs make two lines
    let (_, h2) = wrap_text_to_svg(&b"one\ntwo".to_vec(), 1024).expect("fits");
    assert_eq!(h2, 100);
}

#[test]
fn language_selection_prefers_config() {
    assert_eq!(
        choose_lang(Some(LangSel::English), Some(LangSel::Japanese)),
        LangSel::English
    );
    assert_eq!(choose_lang(None, Some(LangSel::Korean)), LangSel::Korean);
    assert_eq!(choose_lang(None, None), LangSel::Chinese);
}

#[test]
fn sandbox_scripts_mention_their_bindings() {
    let setup = get_setup_script();
    assert!(setup.contains("globalThis.require"));
    assert!(setup.contains("case 'lodash'"));
    assert!(setup.contains("QRCode"));
    let libs = generate_libs_list();
    assert!(libs.contains("lodash(_)"));
    let cheat = generate_cheatsheet_prompt();
    assert!(cheat.contains("**mathjs**:"));
}

#[test]
fn test_builder() {
    // build the full default registry and print its prompt
    let zoom = desc("image_zoom_in_tool", "zoom tool");
    let bbox = desc("image_draw_bbox_2d_tool", "bbox tool");
    let js = desc("js_interpreter", "script tool");
    let curl = desc("curl_url", "fetch tool");
    let memo = desc("Memo", "scratchpad");
    let toolset = ToolSet::builder()
        .add_tool(b"image_zoom_in_tool".to_vec(), zoom)
        .add_tool(b"image_draw_bbox_2d_tool".to_vec(), bbox)
        .add_tool(b"js_interpreter".to_vec(), js)
        .add_tool(b"curl_url".to_vec(), curl)
        .add_tool(b"Memo".to_vec(), memo)
        .build();
    let templates = SystemPromptTemplates {
        assistant_desc_template: b"assistant {CURRENT_DATE}".to_vec(),
        tool_info_template: b"{tool_descs}".to_vec(),
        parallel_call_template: b"{tool_names}".to_vec(),
        single_call_template: b"{tool_names}".to_vec(),
    };
    let p = toolset.system_prompt(&templates, &b"today".to_vec(), false);
    println!("{}", String::from_utf8_lossy(&p));
}
