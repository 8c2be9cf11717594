use nexus_core::chunker::{concatenate_modules, generate_chunk_id, to_hex};
use std::hash::{Hash, Hasher};

#[test]
fn test_chunk_id_generation() {
    let modules = vec!["a.js".to_string(), "b.js".to_string()];
    let id = generate_chunk_id(&modules);
    assert!(!id.is_empty());
}

#[test]
fn test_module_concatenation() {
    let modules = vec![
        ("a.js", "export const a = 1;"),
        ("b.js", "export const b = 2;"),
    ];
    let chunk = concatenate_modules(modules);
    assert!(chunk.contains("Module: a.js"));
    assert!(chunk.contains("Module: b.js"));
}

#[test]
fn concatenation_is_exact() {
    let chunk = concatenate_modules(vec![("a.js", "let a;"), ("b.js", "let b;")]);
    assert_eq!(chunk, "// Module: a.js\nlet a;\n\n// Module: b.js\nlet b;\n\n");
    assert_eq!(concatenate_modules(Vec::new()), "");
}

#[test]
fn chunk_id_is_a_function_of_the_paths() {
    let one = generate_chunk_id(&["a.js".to_string(), "b.js".to_string()]);
    let two = generate_chunk_id(&["a.js".to_string(), "b.js".to_string()]);
    let other = generate_chunk_id(&["b.js".to_string(), "a.js".to_string()]);
    let joined = generate_chunk_id(&["a.jsb.js".to_string()]);
    assert_eq!(one, two);
    assert_ne!(one, other);
    assert_ne!(one, joined);
    assert!(one.len() <= 16);
    assert!(one.chars().all(|c| c.is_ascii_digit() || ('a'..='f').contains(&c)));
}

#[test]
fn hexadecimal_text() {
    assert_eq!(to_hex(0), "0");
    assert_eq!(to_hex(9), "9");
    assert_eq!(to_hex(10), "a");
    assert_eq!(to_hex(255), "ff");
    assert_eq!(to_hex(4096), "1000");
    assert_eq!(to_hex(0xdead_beef), "deadbeef");
    assert_eq!(to_hex(u64::MAX), "ffffffffffffffff");
}

#[test]
fn chunk_id_is_the_hash_of_the_list_of_paths() {
    for paths in [vec![], vec!["a.js".to_string()], vec!["a.js".to_string(), "src/b.ts".to_string(), "é".to_string()]] {
        let mut hasher = std::collections::hash_map::DefaultHasher::new();
        paths.as_slice().hash(&mut hasher);
        assert_eq!(generate_chunk_id(&paths), format!("{:x}", hasher.finish()));
    }
    assert_ne!(generate_chunk_id(&[]), generate_chunk_id(&[String::new()]));
}
