use aegis::compiler::Compiler;
use aegis::diagnostic::Severity;
use aegis::errors::{failed_to_connect_backend, failed_to_publish_schema, failed_to_read_file};
use aegis::report::{decimal_text, run_outcome, DiagnosticReportResult};
use aegis::diagnostic::Reporter as _;
use aegis::ir::{Actor, Kind, Term};
use aegis::parser::Parser;
use aegis::run_result::RunResult;
use aegis::testing::{file_ref, Reporter, URN};
use aegis::vfs::Vfs;

fn first_code(source: &str) -> String {
    let mut reporter = Reporter::new();
    let _ = Parser::new(file_ref(source), &mut reporter).parse();
    assert!(reporter.has_errors());
    reporter.diagnostics[0].urn()
}

#[test]
fn vfs_reads_back_what_was_added() {
    let mut vfs = Vfs::new();
    let a = vfs.add("a.aes".to_string(), "type a {}".to_string());
    let b = vfs.add("b.aes".to_string(), "type b {}".to_string());
    assert_ne!(a, b);
    assert_eq!(a.raw(), 0);
    assert_eq!(b.raw(), 1);

    let fa = vfs.get(a).unwrap();
    assert_eq!(fa.path(), "a.aes");
    assert_eq!(fa.source(), "type a {}");
    assert_eq!(fa.id(), a);

    let fb = vfs.get(b).unwrap();
    assert_eq!(fb.path(), "b.aes");
    assert_eq!(fb.source(), "type b {}");
}

#[test]
fn vfs_unknown_id_is_none() {
    let mut vfs = Vfs::new();
    let a = vfs.add("a.aes".to_string(), String::new());
    assert!(vfs.get(a).is_some());
    assert!(Vfs::new().get(a).is_none());
}

#[test]
fn compiler_checks_a_valid_file() {
    let mut compiler = Compiler::new();
    let id = compiler.add_file(
        "repo.aes".to_string(),
        "type user {}\ntype repo {\n  let owner = user;\n  def admin = .owner;\n}\n".to_string(),
    );
    let mut reporter = Reporter::new();
    let schema = compiler.check(id, &mut reporter).unwrap();
    assert!(reporter.is_clean());
    assert_eq!(schema.types().len(), 2);
}

#[test]
fn compiler_rejects_a_semantic_error() {
    let mut compiler = Compiler::new();
    let id = compiler.add_file("bad.aes".to_string(), "type repo {\n  let owner = ghost;\n}\n".to_string());
    let mut reporter = Reporter::new();
    assert!(compiler.check(id, &mut reporter).is_none());
    assert_eq!(reporter.diagnostics.len(), 1);
    assert_eq!(reporter.diagnostics[0].urn(), "aes::semantic(unknown_type)");
}

#[test]
fn compiler_stops_after_a_parse_error() {
    let mut compiler = Compiler::new();
    let id = compiler.add_file("bad.aes".to_string(), "type repo {\n  let owner = user\n}\n".to_string());
    let mut reporter = Reporter::new();
    assert!(compiler.check(id, &mut reporter).is_none());
    assert_eq!(reporter.diagnostics.len(), 1);
    assert_eq!(reporter.diagnostics[0].urn(), "aes::parser(missing_semicolon)");
}

#[test]
fn compiler_unknown_file_is_none() {
    let mut other = Compiler::new();
    let id = other.add_file("a.aes".to_string(), "type a {}".to_string());
    let compiler = Compiler::new();
    let mut reporter = Reporter::new();
    assert!(compiler.check(id, &mut reporter).is_none());
    assert!(compiler.export_schema(id, &mut reporter).is_none());
    assert!(reporter.is_clean());
}

#[test]
fn compiler_exports_flattened_unions() {
    let mut compiler = Compiler::new();
    let id = compiler.add_file(
        "doc.aes".to_string(),
        "type user {}\ntype doc {\n  let viewer = user;\n  let editor = user;\n  let owner = user;\n  def view = .viewer | .editor | .owner;\n}\n"
            .to_string(),
    );
    let mut reporter = Reporter::new();
    let schema = compiler.export_schema(id, &mut reporter).unwrap();
    assert!(reporter.is_clean());
    assert_eq!(schema.types.len(), 2);
    let doc = &schema.types[1];
    assert_eq!(doc.name, "doc");
    assert_eq!(doc.relations.len(), 3);
    match &doc.relations[0].actors[0].actor {
        Some(Actor::Direct(name)) => assert_eq!(name, "user"),
        other => panic!("unexpected actor {:?}", other),
    }
    let expr = doc.permissions[0].expr.as_ref().unwrap();
    match &expr.kind {
        Some(Kind::Union(u)) => {
            assert_eq!(u.terms.len(), 3);
            let names: Vec<&str> = u
                .terms
                .iter()
                .map(|t| match &t.kind {
                    Some(Kind::Term(term)) => match &term.term {
                        Some(Term::SelfRef(s)) => s.relation.as_str(),
                        _ => panic!("expected a relation reference"),
                    },
                    _ => panic!("expected a term"),
                })
                .collect();
            assert_eq!(names, vec!["viewer", "editor", "owner"]);
        },
        other => panic!("unexpected expression {:?}", other),
    }
}

#[test]
fn exit_codes_are_fixed_and_distinct() {
    assert_eq!(RunResult::Succeeded.exit_code(), 0);
    assert_eq!(RunResult::CompilationFailed.exit_code(), 1);
    assert_eq!(RunResult::UsageError.exit_code(), 2);
    assert_eq!(RunResult::IoError.exit_code(), 3);
    assert_eq!(RunResult::BackendError.exit_code(), 4);
}

#[test]
fn assert_inside_relations_block_is_reported() {
    let source = "test \"t\" {\n  relations {\n    assert( org(\"a\").x( user(\"b\") ) );\n  }\n}\n";
    assert_eq!(first_code(source), "aes::parser(assert_before_relations)");
}

#[test]
fn block_member_without_dot_is_reported() {
    let source = "test \"t\" {\n  relations {\n    repo(\"x\") .{ owner: user(\"a\"); };\n  }\n}\n";
    assert_eq!(first_code(source), "aes::parser(expected_relation_name_or_block)");
}

#[test]
fn missing_permission_after_colons_is_reported() {
    let source = "test \"t\" {\n  relations {\n    repo(\"x\") .writer: team(\"dev\")::;\n  }\n}\n";
    assert_eq!(first_code(source), "aes::parser(expected_permission_after_colons)");
}

#[test]
fn missing_type_name_in_instance_is_reported() {
    let source = "test \"t\" {\n  relations {\n    repo(\"x\") .writer: (\"dev\");\n  }\n}\n";
    assert_eq!(first_code(source), "aes::parser(expected_type_name)");
}

#[test]
fn decimal_text_of_numbers() {
    assert_eq!(decimal_text(0), "0");
    assert_eq!(decimal_text(7), "7");
    assert_eq!(decimal_text(10), "10");
    assert_eq!(decimal_text(305), "305");
    assert_eq!(decimal_text(u32::MAX), "4294967295");
}

#[test]
fn tally_counts_errors_and_everything_else() {
    let mut tally = DiagnosticReportResult::new();
    tally.record(Severity::Error);
    tally.record(Severity::Warning);
    tally.record(Severity::Advice);
    tally.record(Severity::Error);
    assert_eq!(tally, DiagnosticReportResult { error_count: 2, warning_count: 2 });
}

#[test]
fn summary_of_nothing_is_none() {
    assert_eq!(DiagnosticReportResult::new().summary(false), None);
    assert_eq!(DiagnosticReportResult::new().summary(true), None);
}

#[test]
fn summary_lines() {
    let one_error = DiagnosticReportResult { error_count: 1, warning_count: 0 };
    assert_eq!(one_error.summary(false).unwrap(), "   Failed with 1 error");
    assert_eq!(one_error.summary(true).unwrap(), "\x1b[1;31m   Failed\x1b[0m with 1 error");

    let mixed = DiagnosticReportResult { error_count: 2, warning_count: 1 };
    assert_eq!(mixed.summary(false).unwrap(), "   Failed with 2 errors and 1 warning");

    let warnings = DiagnosticReportResult { error_count: 0, warning_count: 3 };
    assert_eq!(warnings.summary(false).unwrap(), "  Warning with 3 warnings");
    assert_eq!(warnings.summary(true).unwrap(), "\x1b[1;33m  Warning\x1b[0m with 3 warnings");

    let one_warning = DiagnosticReportResult { error_count: 0, warning_count: 1 };
    assert_eq!(one_warning.summary(false).unwrap(), "  Warning with 1 warning");

    let many = DiagnosticReportResult { error_count: 12, warning_count: 10 };
    assert_eq!(many.summary(false).unwrap(), "   Failed with 12 errors and 10 warnings");
}

#[test]
fn run_outcome_settles_the_exit() {
    let clean = DiagnosticReportResult { error_count: 0, warning_count: 4 };
    let failed = DiagnosticReportResult { error_count: 1, warning_count: 0 };
    assert_eq!(run_outcome(Some(RunResult::Succeeded), Some(clean)), RunResult::Succeeded);
    assert_eq!(run_outcome(Some(RunResult::Succeeded), Some(failed)), RunResult::CompilationFailed);
    assert_eq!(run_outcome(Some(RunResult::Succeeded), None), RunResult::IoError);
    assert_eq!(run_outcome(Some(RunResult::BackendError), Some(clean)), RunResult::BackendError);
    assert_eq!(run_outcome(Some(RunResult::CompilationFailed), None), RunResult::CompilationFailed);
    assert_eq!(run_outcome(None, Some(clean)), RunResult::IoError);
}

#[test]
fn tool_diagnostics_read_as_written() {
    let d = failed_to_read_file("/tmp/schema.aes");
    assert!(d.is_error());
    assert_eq!(d.message(), "failed to read file: /tmp/schema.aes");
    assert_eq!(d.help(), Some("Try checking the file path and permissions."));

    let d = failed_to_connect_backend("http://127.0.0.1:50051", "connection refused");
    assert_eq!(d.message(), "failed to connect to Aegis server: http://127.0.0.1:50051");
    assert_eq!(
        d.help(),
        Some("Ensure the server is running and the endpoint is correct. Details: connection refused")
    );

    let d = failed_to_publish_schema("invalid schema");
    assert_eq!(d.message(), "failed to publish schema to Aegis server");
    assert_eq!(d.help(), Some("The server rejected the schema. Details: invalid schema"));
}

#[test]
fn program_parses_cleanly_with_its_type_names_in_order() {
    let source = "// accounts\ntype user {}\n\ntest \"t\" {\n  relations {\n    team(\"a\").member: user(\"b\");\n    team(\"a\").{ .owner: user(\"c\"); };\n  }\n  assert(team(\"a\").member(user(\"b\")));\n  assert_not(team(\"a\").owner(user(\"b\")));\n}\n\ntype team {\n  let member = user | team::member;\n  let owner = user;\n  def admin = (.owner & .member) - .member.admin;\n}\n";
    let mut reporter = Reporter::new();
    let (ast, _) = Parser::new(file_ref(source), &mut reporter).parse_and_report();
    assert!(reporter.is_clean());
    let names: Vec<&str> = ast.iter_types().iter().map(|t| t.name.text(source)).collect();
    assert_eq!(names, vec!["user", "team"]);
    assert_eq!(ast.iter_tests().len(), 1);
}

#[test]
fn recognizer_tells_programs_apart() {
    assert!(aegis::recognize::is_program_source(b""));
    assert!(aegis::recognize::is_program_source(b"type a { def x = .r | b; }\n"));
    assert!(aegis::recognize::is_program_source(b"test \"t\" { relations { o(\"a\").{ .r: u(\"b\"); }; } assert(o(\"a\").r(u(\"b\"))); }"));
    assert!(!aegis::recognize::is_program_source(b"type a {"));
    assert!(!aegis::recognize::is_program_source(b"type a { def x = ; }"));
    assert!(!aegis::recognize::is_program_source(b"test \"t\" { }"));
}

#[test]
fn check_reports_syntax_errors_of_a_non_program() {
    let mut compiler = Compiler::new();
    let id = compiler.add_file("a.aes".to_string(), "type t {\n".to_string());
    let mut reporter = Reporter::new();
    assert!(compiler.check(id, &mut reporter).is_none());
    assert!(reporter.has_errors());
    assert_eq!(reporter.diagnostics.len(), 1);
    assert_eq!(reporter.diagnostics[0].urn(), "aes::parser(unclosed_delimiter)");
}

#[test]
fn check_hands_on_semantic_diagnostics() {
    let mut compiler = Compiler::new();
    let id = compiler.add_file("a.aes".to_string(), "type a { def x = missing; }\n".to_string());
    let mut reporter = Reporter::new();
    assert!(compiler.check(id, &mut reporter).is_none());
    assert!(reporter.has_errors());
    assert!(!reporter.diagnostics.is_empty());
    assert_eq!(reporter.diagnostics[0].severity(), Severity::Error);
}
