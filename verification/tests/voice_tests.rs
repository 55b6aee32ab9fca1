use piper_speechd::voice::{derive_name, file_prefix, lang_tag, Registry, VoiceInput};

fn input(filename: &[u8], accent: &[u8], dataset: Option<&[u8]>) -> VoiceInput {
    VoiceInput {
        filename: filename.to_vec(),
        accent: accent.to_vec(),
        dataset: dataset.map(|d| d.to_vec()),
    }
}

#[test]
fn stem_is_everything_before_the_first_dot() {
    assert_eq!(
        file_prefix(&b"en_US-amy-medium.onnx.json".to_vec()),
        b"en_US-amy-medium".to_vec()
    );
    assert_eq!(file_prefix(&b"plain".to_vec()), b"plain".to_vec());
}

#[test]
fn accent_prefix_is_stripped_case_and_separator_insensitively() {
    let stem = file_prefix(&b"en_US-amy-medium.onnx.json".to_vec());
    assert_eq!(derive_name(&stem, &b"en-us".to_vec()), b"amy-medium".to_vec());
    assert_eq!(
        derive_name(&b"EN-US_karen".to_vec(), &b"en-us".to_vec()),
        b"karen".to_vec()
    );
}

#[test]
fn name_without_matching_prefix_stays_unchanged() {
    assert_eq!(
        derive_name(&b"karen-low".to_vec(), &b"en-us".to_vec()),
        b"karen-low".to_vec()
    );
    // the accent must be followed by a separator
    assert_eq!(
        derive_name(&b"en-usx".to_vec(), &b"en-us".to_vec()),
        b"en-usx".to_vec()
    );
}

#[test]
fn lang_tag_joins_language_and_upper_region() {
    assert_eq!(lang_tag(&b"en-us".to_vec()), Some(b"en_US".to_vec()));
    assert_eq!(lang_tag(&b"de-de".to_vec()), Some(b"de_DE".to_vec()));
    assert_eq!(lang_tag(&b"en".to_vec()), None);
}

#[test]
fn discovery_derives_names_and_keeps_sources() {
    let inputs = vec![
        input(b"en_US-amy-medium.onnx.json", b"en-us", Some(b"amy")),
        input(b"karen.onnx.json", b"en-gb", None),
    ];
    let reg = Registry::discover(&inputs);
    assert_eq!(reg.entries.len(), 2);
    assert_eq!(reg.entries[0].name, b"amy-medium".to_vec());
    assert_eq!(reg.entries[0].source, 0);
    assert!(!reg.entries[0].built);
    assert_eq!(reg.entries[1].name, b"karen".to_vec());
    assert_eq!(reg.entries[1].source, 1);
}

#[test]
fn duplicate_names_keep_the_later_input() {
    let inputs = vec![
        input(b"amy.onnx.json", b"en-us", Some(b"one")),
        input(b"amy.json", b"en-us", Some(b"two")),
    ];
    let reg = Registry::discover(&inputs);
    assert_eq!(reg.entries.len(), 1);
    assert_eq!(reg.entries[0].source, 1);
    assert_eq!(reg.entries[0].dataset, Some(b"two".to_vec()));
}

#[test]
fn rediscovery_over_unchanged_inputs_keeps_the_cache_marks() {
    let inputs = vec![
        input(b"en_US-amy-medium.onnx.json", b"en-us", Some(b"amy")),
        input(b"karen.onnx.json", b"en-gb", None),
    ];
    let mut reg = Registry::discover(&inputs);
    reg.set_built(0, true);
    let names_before: Vec<Vec<u8>> = reg.entries.iter().map(|e| e.name.clone()).collect();
    reg.rediscover(&inputs);
    let names_after: Vec<Vec<u8>> = reg.entries.iter().map(|e| e.name.clone()).collect();
    assert_eq!(names_before, names_after);
    assert!(reg.entries[0].built);
    assert!(!reg.entries[1].built);
}

#[test]
fn rediscovery_forgets_a_vanished_voice_and_keeps_the_rest() {
    let inputs = vec![
        input(b"en_US-amy-medium.onnx.json", b"en-us", Some(b"amy")),
        input(b"karen.onnx.json", b"en-gb", None),
    ];
    let mut reg = Registry::discover(&inputs);
    reg.set_built(1, true);
    let fewer = vec![input(b"karen.onnx.json", b"en-gb", None)];
    reg.rediscover(&fewer);
    assert_eq!(reg.entries.len(), 1);
    assert_eq!(reg.entries[0].name, b"karen".to_vec());
    assert!(reg.entries[0].built);
}

#[test]
fn list_lines_report_name_tag_and_dataset() {
    let inputs = vec![
        input(b"en_US-amy-medium.onnx.json", b"en-us", Some(b"amy")),
        input(b"karen.onnx.json", b"en", None),
        input(b"de_DE-thorsten.onnx.json", b"de-de", None),
    ];
    let reg = Registry::discover(&inputs);
    let lines = reg.list_lines();
    // the entry with the malformed accent code is skipped
    assert_eq!(lines.len(), 2);
    assert_eq!(lines[0], b"200-amy-medium\ten_US\tamy".to_vec());
    assert_eq!(lines[1], b"200-thorsten\tde_DE\tnone".to_vec());
}
