use lokal::hub::{
    check_fetched, graph_cache_base, graph_location, parse_spec, path_hash_hex, pick_quant, resolve_model, Resolution,
};

#[test]
fn path_hash_matches_fnv1a_vectors() {
    assert_eq!(path_hash_hex(b""), "84222325");
    assert_eq!(path_hash_hex(b"a"), "8601ec8c");
    assert_eq!(path_hash_hex(b"foobar"), "f73967e8");
}

#[test]
fn hub_snapshot_maps_to_readable_slug() {
    let base = graph_cache_base(None, Some("/home/me"));
    let loc = graph_location(
        "/nonexistent/hub/models--HuggingFaceTB--SmolLM2-135M-Instruct/snapshots/12fd25f",
        None,
        &base,
    );
    assert!(loc.dir.ends_with("lokal/coreml/HuggingFaceTB--SmolLM2-135M-Instruct"));
    assert_eq!(loc.model, "HuggingFaceTB/SmolLM2-135M-Instruct");
    assert_eq!(loc.revision.as_deref(), Some("12fd25f"));
}

#[test]
fn local_dir_slug_carries_a_path_hash() {
    let base = graph_cache_base(None, Some("/home/me"));
    let a = graph_location("/nonexistent/checkouts/a/model", None, &base);
    let b = graph_location("/nonexistent/checkouts/b/model", None, &base);
    assert!(a.revision.is_none());
    let an = a.dir.rsplit('/').next().unwrap();
    let bn = b.dir.rsplit('/').next().unwrap();
    assert_ne!(an, bn);
    assert!(an.starts_with("model-"));
    assert_eq!(an.len(), "model-".len() + 8);
}

#[test]
fn near_paths_get_different_directories() {
    let mut names: Vec<String> = ('a'..='z')
        .map(|c| graph_location(&format!("/nonexistent/checkouts/{c}/model"), None, "/base").dir)
        .collect();
    names.sort();
    names.dedup();
    assert_eq!(names.len(), 26);
}

#[test]
fn the_cache_base_follows_the_settings() {
    assert_eq!(graph_cache_base(Some("/x"), Some("/home/me")), "/x/lokal/coreml");
    assert_eq!(graph_cache_base(Some(""), Some("/home/me")), "/home/me/.cache/lokal/coreml");
    let loc = graph_location("/m/model", Some("/graphs"), "/base");
    assert_eq!(loc.dir, "/graphs");
}

#[test]
fn model_specs_are_resolved() {
    assert!(resolve_model("./model", true).is_ok());
    assert!(resolve_model("no-such-model", false).is_err());
    assert!(parse_spec("owner/repo").is_ok());
    assert!(parse_spec("owner").is_err());
    assert_eq!(check_fetched("o", "r", "f", true), Ok(()));
    assert_eq!(check_fetched("o", "r", "f", false), Err("o/r has no file named f".to_string()));
}

#[test]
fn a_quantization_is_picked_by_its_tag() {
    let files = vec!["m-Q8_0.gguf".to_string(), "m-Q4_K_M.gguf".to_string()];
    assert_eq!(pick_quant("o/r", &files, "Q4_K_M").unwrap(), "m-Q4_K_M.gguf");
    assert!(pick_quant("o/r", &files, "Q2_K").is_err());
}

#[test]
fn specs_become_fetches() {
    match resolve_model("Qwen/Qwen2.5-0.5B", false).unwrap() {
        Resolution::Fetch { owner, repo, patterns } => {
            assert_eq!((owner.as_str(), repo.as_str()), ("Qwen", "Qwen2.5-0.5B"));
            assert_eq!(
                patterns,
                vec!["config.json", "tokenizer.json", "model*.safetensors", "model.safetensors.index.json"]
            );
        }
        other => panic!("{other:?}"),
    }
    match resolve_model("o/r/m.GGUF", false).unwrap() {
        Resolution::FetchFile { owner, repo, file } => {
            assert_eq!((owner.as_str(), repo.as_str(), file.as_str()), ("o", "r", "m.GGUF"))
        }
        other => panic!("{other:?}"),
    }
    match resolve_model("unsloth/Qwen3-0.6B-GGUF", false).unwrap() {
        Resolution::Pick { owner, repo, tag } => {
            assert_eq!((owner.as_str(), repo.as_str(), tag.as_str()), ("unsloth", "Qwen3-0.6B-GGUF", "Q4_K_M"))
        }
        other => panic!("{other:?}"),
    }
    match resolve_model("unsloth/Qwen3-0.6B-GGUF:Q8_0", false).unwrap() {
        Resolution::Pick { tag, .. } => assert_eq!(tag, "Q8_0"),
        other => panic!("{other:?}"),
    }
    assert_eq!(
        resolve_model("o/r/m.bin", false).unwrap_err(),
        "model spec \"o/r/m.bin\" names a file inside a repo — only .gguf files resolve that way"
    );
    assert_eq!(
        resolve_model("plain", false).unwrap_err(),
        "model spec \"plain\" is neither a local path nor an owner/name repo id"
    );
}

#[test]
fn a_miss_and_an_ambiguity_list_the_files() {
    let files = vec!["m-Q8_0.gguf".to_string(), "M-q8_0-big.gguf".to_string(), "readme.md".to_string()];
    assert_eq!(
        pick_quant("o/r", &files, "Q4_K_M").unwrap_err(),
        "o/r has no Q4_K_M file — it has: m-Q8_0.gguf, M-q8_0-big.gguf"
    );
    assert_eq!(
        pick_quant("o/r", &files, "q8_0").unwrap_err(),
        "o/r has several q8_0 files: m-Q8_0.gguf, M-q8_0-big.gguf"
    );
}
