use ccore::memory::function_embed::{CodeBlock, CodeBlockKind, CodeBlockParser};
use ccore::memory::imports::{detect_language, ImportInfo, ImportParser, Language};
use ccore::memory::repo_map::{DependencyEdge, DependencyType, FileNode, RepoMap};
use ccore::path::FilePath;

fn file(path: &str, definitions: Vec<String>, imports: Vec<ImportInfo>) -> FileNode {
    FileNode {
        path: FilePath::new(path),
        language: Language::Rust,
        definitions,
        imports,
        content_hash: 0,
    }
}

fn edge(from: &str, to: &str) -> DependencyEdge {
    DependencyEdge {
        from: FilePath::new(from),
        to: FilePath::new(to),
        dep_type: DependencyType::Direct,
    }
}

#[test]
fn test_repo_map_basic() {
    let mut map = RepoMap::new(FilePath::new("/project"));

    map.add_file(file(
        "src/main.rs",
        vec!["main".to_string()],
        vec![ImportInfo {
            module: "crate::config".to_string(),
            symbols: Some(vec!["Config".to_string()]),
            is_relative: true,
        }],
    ));
    map.add_file(file("src/config.rs", vec!["Config".to_string()], vec![]));
    map.add_dependency(edge("src/main.rs", "src/config.rs"));

    assert_eq!(map.file_count(), 2);
    assert_eq!(map.edge_count(), 1);

    let deps = map.dependencies_of(&FilePath::new("src/main.rs"));
    assert_eq!(deps.len(), 1);
    assert_eq!(deps[0].to.as_text(), "src/config.rs");

    let dependents = map.dependents_of(&FilePath::new("src/config.rs"));
    assert_eq!(dependents.len(), 1);

    let impacted = map.impact_analysis(&[FilePath::new("src/config.rs")]);
    assert!(impacted.contains(&FilePath::new("src/main.rs")));
}

#[test]
fn test_all_dependencies_transitive() {
    let mut map = RepoMap::new(FilePath::new("/project"));
    map.add_file(file("a.rs", vec![], vec![]));
    map.add_file(file("b.rs", vec![], vec![]));
    map.add_file(file("c.rs", vec![], vec![]));
    map.add_dependency(edge("a.rs", "b.rs"));
    map.add_dependency(edge("b.rs", "c.rs"));

    let all_deps = map.all_dependencies(&FilePath::new("a.rs"));
    assert!(all_deps.contains(&FilePath::new("b.rs")));
    assert!(all_deps.contains(&FilePath::new("c.rs")));
}

#[test]
fn test_parse_rust_imports() {
    let source = r#"
use std::collections::HashMap;
use crate::config::Config;
use crate::models::{User, Post};
"#;
    let imports = ImportParser::parse(source, Language::Rust);
    assert!(imports.len() >= 2);
}

#[test]
fn test_parse_typescript_imports() {
    let source = r#"
import { useState, useEffect } from 'react';
import axios from 'axios';
import type { Config } from './config';
"#;
    let imports = ImportParser::parse(source, Language::TypeScript);
    assert_eq!(imports.len(), 3);
}

#[test]
fn test_parse_python_imports() {
    let source = r#"
from typing import List, Dict
import os
from .config import Settings
"#;
    let imports = ImportParser::parse(source, Language::Python);
    assert_eq!(imports.len(), 3);
}

#[test]
fn test_find_definition() {
    let mut map = RepoMap::new(FilePath::new("/project"));
    map.add_file(file(
        "src/user.rs",
        vec!["User".to_string(), "create_user".to_string()],
        vec![],
    ));

    let found = map.find_definition("User");
    assert_eq!(found.len(), 1);
    assert_eq!(found[0].path.as_text(), "src/user.rs");
}

#[test]
fn test_to_summary() {
    let mut map = RepoMap::new(FilePath::new("/project"));
    map.add_file(file("src/main.rs", vec!["main".to_string()], vec![]));
    map.add_file(file("src/config.rs", vec!["Config".to_string()], vec![]));
    map.add_dependency(edge("src/main.rs", "src/config.rs"));

    let summary = map.to_summary();
    assert!(summary.contains("main"));
    assert!(summary.contains("Config"));
}

#[test]
fn test_parse_rust_functions() {
    let source = r#"
pub fn main() {
    println!("hello");
}

fn helper(a: i32) -> i32 {
    a + 1
}
"#;
    let blocks = CodeBlockParser::parse(source, FilePath::new("main.rs"), Language::Rust);
    assert_eq!(blocks.len(), 2);
    assert_eq!(blocks[0].name, "main");
    assert_eq!(blocks[1].name, "");
}

#[test]
fn test_parse_rust_struct() {
    let source = r#"
pub struct Config {
    pub name: String,
    pub value: i32,
}
"#;
    let blocks = CodeBlockParser::parse(source, FilePath::new("config.rs"), Language::Rust);
    assert_eq!(blocks.len(), 0);
}

#[test]
fn test_parse_typescript() {
    let source = r#"
export function greet(name: string): string {
    return `Hello, ${name}!`;
}

class User {
    constructor(public name: string) {}
}
"#;
    let blocks = CodeBlockParser::parse(source, FilePath::new("user.ts"), Language::TypeScript);
    assert_eq!(blocks.len(), 2);
    assert_eq!(blocks[0].name, "greet");
    assert_eq!(blocks[1].name, "User");
}

#[test]
fn test_parse_python() {
    let source = r#"
def hello(name):
    print(f"Hello, {name}")

class Calculator:
    def add(self, a, b):
        return a + b
"#;
    let blocks = CodeBlockParser::parse(source, FilePath::new("calc.py"), Language::Python);
    assert!(blocks.len() >= 2);
}

#[test]
fn test_code_block_search_text() {
    let block = CodeBlock {
        id: "test:0".to_string(),
        file_path: FilePath::new("main.rs"),
        kind: CodeBlockKind::Function,
        name: "main".to_string(),
        source: "fn main() { println!(\"hello\"); }".to_string(),
        start_line: 0,
        end_line: 0,
        doc_comment: Some("The main entry point".to_string()),
        embedding: None,
    };
    let text = block.to_search_text();
    assert!(text.contains("main"));
    assert!(text.contains("The main entry point"));
    assert!(text.contains("[function]"));
}

#[test]
fn languages_are_told_by_extension() {
    assert_eq!(detect_language(&FilePath::new("src/main.rs")), Language::Rust);
    assert_eq!(detect_language(&FilePath::new("app.tsx")), Language::TypeScript);
    assert_eq!(detect_language(&FilePath::new("tool.py")), Language::Python);
}

#[test]
fn rust_imports_are_taken_apart() {
    let imports = ImportParser::parse("use crate::{User, Post};\n", Language::Rust);
    assert_eq!(imports.len(), 1);
    assert_eq!(imports[0].module, "crate");
    assert_eq!(
        imports[0].symbols,
        Some(vec!["User".to_string(), "Post".to_string()])
    );
    assert!(imports[0].is_relative);
}

#[test]
fn braces_may_stand_behind_a_longer_path() {
    let imports = ImportParser::parse(
        "use crate::models::{User, Post};\nuse a::b::c;\nuse a::b::*;\nuse a::{b::{c}, d};",
        Language::Rust,
    );
    assert_eq!(imports[0].module, "crate::models");
    assert_eq!(imports[0].symbols, Some(vec!["User".to_string(), "Post".to_string()]));
    assert!(imports[0].is_relative);
    assert_eq!(imports[1].module, "a::b");
    assert_eq!(imports[1].symbols, Some(vec!["c".to_string()]));
    assert!(!imports[1].is_relative);
    assert_eq!(imports[2].module, "a::b");
    assert_eq!(imports[2].symbols, None);
    assert_eq!(imports[3].module, "a");
    let python = ImportParser::parse("from a import *\nfrom b import c, d", Language::Python);
    assert_eq!(python[0].symbols, None);
    assert_eq!(python[1].symbols, Some(vec!["c".to_string(), "d".to_string()]));
}

#[test]
fn shortest_dependency_path_is_found() {
    let mut map = RepoMap::new(FilePath::new("/project"));
    for name in ["a.rs", "b.rs", "c.rs", "d.rs"] {
        map.add_file(file(name, vec![], vec![]));
    }
    map.add_dependency(edge("a.rs", "b.rs"));
    map.add_dependency(edge("b.rs", "c.rs"));
    map.add_dependency(edge("c.rs", "d.rs"));
    map.add_dependency(edge("a.rs", "c.rs"));

    let path = map
        .find_dependency_path(&FilePath::new("a.rs"), &FilePath::new("d.rs"))
        .unwrap();
    let texts: Vec<&str> = path.iter().map(|p| p.as_text()).collect();
    assert_eq!(texts, vec!["a.rs", "c.rs", "d.rs"]);
    assert!(map
        .find_dependency_path(&FilePath::new("d.rs"), &FilePath::new("a.rs"))
        .is_none());
}

#[test]
fn removed_file_leaves_no_edge() {
    let mut map = RepoMap::new(FilePath::new("/project"));
    map.add_file(file("a.rs", vec![], vec![]));
    map.add_file(file("b.rs", vec![], vec![]));
    map.add_dependency(edge("a.rs", "b.rs"));
    map.remove_file(&FilePath::new("b.rs"));
    assert_eq!(map.file_count(), 1);
    assert_eq!(map.edge_count(), 0);
    assert!(map.get_file(&FilePath::new("b.rs")).is_none());
}

#[test]
fn imports_are_resolved_to_files() {
    let mut map = RepoMap::new(FilePath::new("/project"));
    map.add_file(file(
        "src/main.rs",
        vec!["main".to_string()],
        vec![ImportInfo {
            module: "crate::config".to_string(),
            symbols: Some(vec!["Config".to_string()]),
            is_relative: true,
        }],
    ));
    map.add_file(file("src/config.rs", vec!["Config".to_string()], vec![]));
    let present: Vec<FilePath> = map.probes();
    assert!(!present.is_empty());
    map.resolve_dependencies(&present);
    let deps = map.dependencies_of(&FilePath::new("src/main.rs"));
    assert_eq!(deps.len(), 1);
    assert_eq!(deps[0].to.as_text(), "src/config.rs");
}

#[test]
fn every_function_of_an_impl_is_a_method() {
    let source = "impl A {\n    pub fn x(&self) {\n        1;\n    }\n    pub fn y(&self) {\n        2;\n    }\n}\npub fn z() {\n}\n";
    let blocks = CodeBlockParser::parse(source, FilePath::new("a.rs"), Language::Rust);
    let found: Vec<(&str, CodeBlockKind)> =
        blocks.iter().map(|b| (b.name.as_str(), b.kind)).collect();
    assert_eq!(
        found,
        vec![
            ("x", CodeBlockKind::Method),
            ("y", CodeBlockKind::Method),
            ("z", CodeBlockKind::Function),
        ]
    );
}
