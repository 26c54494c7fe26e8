use trajectory_gpu::batch::{ShaderUnit, TargetPolicy};
use trajectory_gpu::expand::{import_keyword, ShaderLibrary};
use trajectory_gpu::program::{artifact_file_name_of, source_path_of, BuildError, ShaderStage};

fn directive(names: &str) -> String {
    format!("{}{}", import_keyword(), names)
}

fn library(files: &[(&str, &str)]) -> ShaderLibrary {
    let mut lib = ShaderLibrary::new();
    for (path, text) in files {
        lib.add(path, text);
    }
    lib
}

#[test]
fn plain_source_keeps_comment_free_lines_in_order() {
    let lib = library(&[(
        "fade.comp.glsl",
        "layout(local_size_x = 16) in;\n// dampen the canvas\nvoid main() {\n    x = 1; // inline\n}\n",
    )]);
    let p = lib.assemble("fade", ShaderStage::Compute).unwrap();
    assert_eq!(p.text, "#version 450\nlayout(local_size_x = 16) in;void main() {}");
    assert!(p.missing_imports.is_empty());
}

#[test]
fn empty_source_is_only_the_header() {
    let lib = library(&[("e.fs.glsl", "")]);
    let p = lib.assemble("e", ShaderStage::Fragment).unwrap();
    assert_eq!(p.text, "#version 450\n");
}

#[test]
fn carriage_returns_are_dropped() {
    let lib = library(&[("w.comp.glsl", "a;\r\nb;\r\n")]);
    let p = lib.assemble("w", ShaderStage::Compute).unwrap();
    assert_eq!(p.text, "#version 450\na;b;");
}

#[test]
fn imports_expand_in_list_order() {
    let a = format!("head;\n{}\"b.glsl\",\"c.glsl\"\ntail;", import_keyword());
    let b = format!("{}\"d.glsl\"\nb1;\nb2;", import_keyword());
    let lib = library(&[
        ("a.comp.glsl", a.as_str()),
        ("b.glsl", b.as_str()),
        ("c.glsl", "c1;"),
        ("d.glsl", "d1;"),
    ]);
    let p = lib.assemble("a", ShaderStage::Compute).unwrap();
    assert_eq!(p.text, "#version 450\nhead;d1;b1;b2;c1;tail;");
    let swapped = format!("head;\n{}\"c.glsl\",\"b.glsl\"\ntail;", import_keyword());
    let lib2 = library(&[
        ("a.comp.glsl", swapped.as_str()),
        ("b.glsl", b.as_str()),
        ("c.glsl", "c1;"),
        ("d.glsl", "d1;"),
    ]);
    let q = lib2.assemble("a", ShaderStage::Compute).unwrap();
    assert_eq!(q.text, "#version 450\nhead;c1;d1;b1;b2;tail;");
}

#[test]
fn shared_import_is_expanded_each_time() {
    let a = directive("\"b.glsl\",\"c.glsl\"");
    let b = directive("\"s.glsl\"");
    let c = directive("\"s.glsl\"");
    let lib = library(&[
        ("a.comp.glsl", a.as_str()),
        ("b.glsl", b.as_str()),
        ("c.glsl", c.as_str()),
        ("s.glsl", "s;"),
    ]);
    let p = lib.assemble("a", ShaderStage::Compute).unwrap();
    assert_eq!(p.text, "#version 450\ns;s;");
}

#[test]
fn missing_import_is_reported_and_skipped() {
    let a = format!("{}\"gone.glsl\", \"here.glsl\"\nmain;", import_keyword());
    let lib = library(&[("a.fs.glsl", a.as_str()), ("here.glsl", "h;")]);
    let p = lib.assemble("a", ShaderStage::Fragment).unwrap();
    assert_eq!(p.text, "#version 450\nh;main;");
    assert_eq!(p.missing_imports, vec!["gone.glsl".to_string()]);
}

#[test]
fn comment_after_directive_does_not_change_imports() {
    let a = format!("{}\"b.glsl\" // shared helpers, \"c.glsl\"", import_keyword());
    let lib = library(&[("a.comp.glsl", a.as_str()), ("b.glsl", "b;"), ("c.glsl", "c;")]);
    let p = lib.assemble("a", ShaderStage::Compute).unwrap();
    assert_eq!(p.text, "#version 450\nb;");
    assert!(p.missing_imports.is_empty());
}

#[test]
fn import_cycle_fails_fast() {
    let a = directive("\"b.glsl\"");
    let b = directive("\"a.glsl\"");
    let lib = library(&[("a.comp.glsl", "x;"), ("b.glsl", b.as_str()), ("a.glsl", a.as_str())]);
    match lib.resolve("a.glsl") {
        Err(BuildError::ImportCycle { name }) => assert_eq!(name, "a.glsl"),
        other => panic!("expected a cycle, got {:?}", other),
    }
}

#[test]
fn self_import_is_a_cycle() {
    let a = directive("\"a.comp.glsl\"");
    let lib = library(&[("a.comp.glsl", a.as_str())]);
    match lib.assemble("a", ShaderStage::Compute) {
        Err(BuildError::ImportCycle { name }) => assert_eq!(name, "a.comp.glsl"),
        other => panic!("expected a cycle, got {:?}", other),
    }
}

#[test]
fn missing_vertex_source_uses_shared_vertex_program() {
    let lib = library(&[
        ("common.vs.glsl", "void main() { gl_Position = pos; }\n// shared"),
        ("quad.fs.glsl", "void main() {}"),
    ]);
    let fallback = lib.assemble("quad", ShaderStage::Vertex).unwrap();
    let direct = lib.assemble("common", ShaderStage::Vertex).unwrap();
    assert_eq!(fallback.text, direct.text);
    assert_eq!(fallback.text, "#version 450\nvoid main() { gl_Position = pos; }");
}

#[test]
fn own_vertex_source_wins_over_shared() {
    let lib = library(&[("common.vs.glsl", "shared;"), ("quad.vs.glsl", "own;")]);
    let p = lib.assemble("quad", ShaderStage::Vertex).unwrap();
    assert_eq!(p.text, "#version 450\nown;");
}

#[test]
fn missing_shared_vertex_program_is_fatal() {
    let lib = library(&[("quad.fs.glsl", "f;")]);
    match lib.assemble("quad", ShaderStage::Vertex) {
        Err(BuildError::MissingMandatoryStage { path }) => assert_eq!(path, "common.vs.glsl"),
        other => panic!("expected a missing stage, got {:?}", other),
    }
}

#[test]
fn missing_fragment_or_compute_source_is_fatal() {
    let lib = library(&[("common.vs.glsl", "v;")]);
    match lib.assemble("particle/trajectory_presenting", ShaderStage::Fragment) {
        Err(BuildError::MissingMandatoryStage { path }) => {
            assert_eq!(path, "particle/trajectory_presenting.fs.glsl")
        }
        other => panic!("expected a missing stage, got {:?}", other),
    }
    match lib.assemble("particle/trajectory_move", ShaderStage::Compute) {
        Err(BuildError::MissingMandatoryStage { path }) => {
            assert_eq!(path, "particle/trajectory_move.comp.glsl")
        }
        other => panic!("expected a missing stage, got {:?}", other),
    }
}

#[test]
fn batch_stops_at_first_missing_mandatory_source() {
    let lib = library(&[
        ("common.vs.glsl", "v;"),
        ("a.fs.glsl", "a;"),
        ("c.comp.glsl", "c;"),
    ]);
    let units = vec![
        ShaderUnit { name: "a".to_string(), stage: ShaderStage::Vertex },
        ShaderUnit { name: "a".to_string(), stage: ShaderStage::Fragment },
        ShaderUnit { name: "b".to_string(), stage: ShaderStage::Compute },
        ShaderUnit { name: "missing_too".to_string(), stage: ShaderStage::Fragment },
        ShaderUnit { name: "c".to_string(), stage: ShaderStage::Compute },
    ];
    match lib.prepare_batch(&units) {
        Err(BuildError::MissingMandatoryStage { path }) => assert_eq!(path, "b.comp.glsl"),
        other => panic!("expected the batch to stop, got {:?}", other),
    }
}

#[test]
fn complete_batch_yields_every_program_in_order() {
    let lib = library(&[
        ("common.vs.glsl", "v;"),
        ("a.fs.glsl", "a;"),
        ("c.comp.glsl", "c;"),
    ]);
    let units = vec![
        ShaderUnit { name: "a".to_string(), stage: ShaderStage::Vertex },
        ShaderUnit { name: "a".to_string(), stage: ShaderStage::Fragment },
        ShaderUnit { name: "c".to_string(), stage: ShaderStage::Compute },
    ];
    let ps = lib.prepare_batch(&units).unwrap();
    let texts: Vec<&str> = ps.iter().map(|p| p.text.as_str()).collect();
    assert_eq!(texts, vec!["#version 450\nv;", "#version 450\na;", "#version 450\nc;"]);
}

#[test]
fn artifact_names_flatten_path_separators() {
    assert_eq!(
        artifact_file_name_of("particle/trajectory_move", ShaderStage::Compute),
        "particle_trajectory_move_comp.spv"
    );
    assert_eq!(
        artifact_file_name_of("optimized_mem_lbm/diffuse/init", ShaderStage::Compute),
        "optimized_mem_lbm_diffuse_init_comp.spv"
    );
    assert_eq!(artifact_file_name_of("none", ShaderStage::Vertex), "none_vs.spv");
    assert_eq!(artifact_file_name_of("clear_color", ShaderStage::Fragment), "clear_color_fs.spv");
}

#[test]
fn source_paths_carry_stage_suffix() {
    assert_eq!(source_path_of("particle/trajectory_presenting", ShaderStage::Vertex), "particle/trajectory_presenting.vs.glsl");
    assert_eq!(source_path_of("none", ShaderStage::Fragment), "none.fs.glsl");
    assert_eq!(source_path_of("lbm/d2q9_init", ShaderStage::Compute), "lbm/d2q9_init.comp.glsl");
    assert_eq!(ShaderStage::Compute.suffix(), "comp");
}

#[test]
fn mobile_targets_select_all_programs() {
    let policy = TargetPolicy::mobile();
    assert!(policy.selects("aarch64-apple-ios"));
    let render = policy.render_programs("aarch64-apple-ios");
    assert_eq!(render, vec!["none", "clear_color", "particle/trajectory_presenting", "particle/pigment_diffuse"]);
    let compute = policy.compute_programs("x86_64-apple-ios");
    assert_eq!(compute.len(), 16);
    assert_eq!(compute[0], "lbm/d2q9_init");
    assert_eq!(compute[15], "particle/trajectory_move");
    let units = policy.units("aarch64-apple-ios");
    assert_eq!(units.len(), 24);
    assert_eq!(units[0].name, "none");
    assert_eq!(units[0].stage, ShaderStage::Vertex);
    assert_eq!(units[1].stage, ShaderStage::Fragment);
    assert_eq!(units[8].name, "lbm/d2q9_init");
    assert_eq!(units[8].stage, ShaderStage::Compute);
}

#[test]
fn other_targets_compile_nothing() {
    let policy = TargetPolicy::mobile();
    assert!(!policy.selects("x86_64-unknown-linux-gnu"));
    assert!(policy.render_programs("x86_64-unknown-linux-gnu").is_empty());
    assert!(policy.compute_programs("wasm32-unknown-unknown").is_empty());
    assert!(policy.units("x86_64-pc-windows-msvc").is_empty());
}

#[test]
fn policy_family_is_configurable() {
    let policy = TargetPolicy { family: "android".to_string() };
    assert!(policy.selects("aarch64-linux-android"));
    assert!(!policy.selects("aarch64-apple-ios"));
    let everything = TargetPolicy { family: String::new() };
    assert_eq!(everything.units("x86_64-unknown-linux-gnu").len(), 24);
}

#[test]
fn bare_final_carriage_return_is_kept() {
    let lib = library(&[("k.comp.glsl", "a;\r\nx\r")]);
    let p = lib.assemble("k", ShaderStage::Compute).unwrap();
    assert_eq!(p.text, "#version 450\na;x\r");
}

#[test]
fn resolving_resolved_text_changes_nothing() {
    let lib = library(&[("once.glsl", "x\r\r\ny;")]);
    let first = lib.resolve("once.glsl").unwrap();
    assert_eq!(first.text, "x\ry;");
    let again = library(&[("twice.glsl", first.text.as_str())]);
    assert_eq!(again.resolve("twice.glsl").unwrap().text, first.text);
}

#[test]
fn import_names_keep_inner_blanks() {
    let a = directive(" \"my file.glsl\" ,\tother.glsl ");
    let lib = library(&[("a.comp.glsl", a.as_str()), ("my file.glsl", "m;"), ("other.glsl", "o;")]);
    let p = lib.assemble("a", ShaderStage::Compute).unwrap();
    assert_eq!(p.text, "#version 450\nm;o;");
    assert!(p.missing_imports.is_empty());
}

#[test]
fn inlining_a_fragment_by_hand_gives_the_same_text() {
    let with_import = format!("p;\n{}\"b.glsl\"\ns;", import_keyword());
    let lib = library(&[("a.comp.glsl", with_import.as_str()), ("b.glsl", "b1;\nb2;\n"), ("h.comp.glsl", "p;\nb1;\nb2;\ns;")]);
    let imported = lib.assemble("a", ShaderStage::Compute).unwrap();
    let by_hand = lib.assemble("h", ShaderStage::Compute).unwrap();
    assert_eq!(imported.text, by_hand.text);
}
