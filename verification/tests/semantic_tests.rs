use aegis::ast::{ExprId, TypeDefId};
use aegis::parser::Parser;
use aegis::semantic::declare::declare_schema;
use aegis::semantic::index::SemanticIndex;
use aegis::semantic::verify::verify_schema;
use aegis::semantic::Context;
use aegis::span::Span;
use aegis::diagnostic::Reporter as _;
use aegis::testing::{file_ref, Reporter, URN};

fn type_id(i: u32) -> TypeDefId {
    TypeDefId::new(i)
}

fn expr_id(i: u32) -> ExprId {
    ExprId::new(i)
}

fn assert_code(r: &Reporter, urn: &str) {
    assert!(r.has_errors());
    assert_eq!(r.diagnostics.len(), 1);
    assert_eq!(r.diagnostics[0].urn(), urn);
}

fn run_declare(source: &str) -> Reporter {
    let file = file_ref(source);
    let mut errs = Reporter::new();
    let ast = Parser::new(file, &mut errs).parse();
    assert!(errs.is_clean());

    let mut ctx = Context::new(file, 8, Reporter::new());
    declare_schema(&mut ctx, &ast);

    ctx.into_reporter()
}

fn run_verify(source: &str) -> Reporter {
    let file = file_ref(source);
    let mut errs = Reporter::new();
    let ast = Parser::new(file, &mut errs).parse();
    assert!(errs.is_clean());

    let mut ctx = Context::new(file, 8, Reporter::new());
    declare_schema(&mut ctx, &ast);
    assert!(ctx.reporter().is_clean());

    verify_schema(&mut ctx, &ast);

    ctx.into_reporter()
}

#[test]
fn index_first_time_returns_none() {
            let mut idx = SemanticIndex::with_capacity(8);

            assert!(idx.declare_type(type_id(0), Span::empty(0), "user").is_none());
        }

#[test]
fn index_duplicate_returns_previous_span() {
            let mut idx = SemanticIndex::with_capacity(8);

            let first_span = Span::empty(10);
            idx.declare_type(type_id(0), first_span, "user");
            let collision = idx.declare_type(type_id(1), Span::empty(20), "user");

            assert_eq!(collision.unwrap().start(), first_span.start());
        }

#[test]
fn duplicate_does_not_overwrite() {
            let mut idx = SemanticIndex::with_capacity(8);

            idx.declare_type(type_id(0), Span::empty(0), "user");
            idx.declare_type(type_id(1), Span::empty(10), "user"); // collision

            assert_eq!(idx.type_("user"), Some(type_id(0)));
        }

#[test]
fn index_distinct_all_resolve() {
            let mut idx = SemanticIndex::with_capacity(8);

            idx.declare_type(type_id(0), Span::empty(0), "user");
            idx.declare_type(type_id(1), Span::empty(10), "group");

            assert_eq!(idx.type_("user"), Some(type_id(0)));
            assert_eq!(idx.type_("group"), Some(type_id(1)));
        }

#[test]
fn type_unknown_name_returns_none() {
            let idx = SemanticIndex::with_capacity(8);

            assert!(idx.type_("unknown").is_none());
        }

#[test]
fn index_first_time_returns_none_300() {
            let mut idx = SemanticIndex::with_capacity(8);

            idx.declare_type(type_id(0), Span::empty(0), "user");

            assert!(
                idx.declare_relation(type_id(0), Span::empty(5), "member", expr_id(0))
                    .is_none()
            );
        }

#[test]
fn index_duplicate_returns_previous_span_313() {
            let mut idx = SemanticIndex::with_capacity(8);

            idx.declare_type(type_id(0), Span::empty(0), "user");
            let first_span = Span::empty(5);
            idx.declare_relation(type_id(0), first_span, "member", expr_id(0));
            let collision = idx.declare_relation(type_id(0), Span::empty(15), "member", expr_id(1));

            assert_eq!(collision.unwrap().start(), first_span.start());
        }

#[test]
fn index_distinct_all_resolve_326() {
            let mut idx = SemanticIndex::with_capacity(8);

            idx.declare_type(type_id(0), Span::empty(0), "user");

            assert!(
                idx.declare_relation(type_id(0), Span::empty(0), "member", expr_id(0))
                    .is_none()
            );
            assert!(
                idx.declare_relation(type_id(0), Span::empty(5), "owner", expr_id(1))
                    .is_none()
            );
        }

#[test]
fn index_scoped_to_type() {
            let mut idx = SemanticIndex::with_capacity(8);

            idx.declare_type(type_id(0), Span::empty(0), "user");
            idx.declare_type(type_id(1), Span::empty(5), "group");

            assert!(
                idx.declare_relation(type_id(0), Span::empty(10), "member", expr_id(0))
                    .is_none()
            );
            assert!(
                idx.declare_relation(type_id(1), Span::empty(20), "member", expr_id(1))
                    .is_none()
            );
        }

#[test]
fn unknown_scope_returns_none() {
            let mut idx = SemanticIndex::with_capacity(8);

            assert!(
                idx.declare_relation(type_id(99), Span::empty(0), "member", expr_id(0))
                    .is_none()
            );
        }

#[test]
fn index_first_time_returns_none_376() {
            let mut idx = SemanticIndex::with_capacity(8);

            idx.declare_type(type_id(0), Span::empty(0), "user");
            assert!(
                idx.declare_permission(type_id(0), Span::empty(5), "read", expr_id(0))
                    .is_none()
            );
        }

#[test]
fn index_duplicate_returns_previous_span_388() {
            let mut idx = SemanticIndex::with_capacity(8);

            idx.declare_type(type_id(0), Span::empty(0), "user");
            let first_span = Span::empty(5);
            idx.declare_permission(type_id(0), first_span, "read", expr_id(0));
            let collision = idx.declare_permission(type_id(0), Span::empty(15), "read", expr_id(1));

            assert_eq!(collision.unwrap().start(), first_span.start());
        }

#[test]
fn index_scoped_to_type_401() {
            let mut idx = SemanticIndex::with_capacity(8);

            idx.declare_type(type_id(0), Span::empty(0), "user");
            idx.declare_type(type_id(1), Span::empty(5), "group");

            assert!(
                idx.declare_permission(type_id(0), Span::empty(10), "read", expr_id(0))
                    .is_none()
            );
            assert!(
                idx.declare_permission(type_id(1), Span::empty(20), "read", expr_id(1))
                    .is_none()
            );
        }

#[test]
fn relation_and_permission_namespaces_are_independent() {
            let mut idx = SemanticIndex::with_capacity(8);

            idx.declare_type(type_id(0), Span::empty(0), "user");

            assert!(
                idx.declare_relation(type_id(0), Span::empty(5), "read", expr_id(0))
                    .is_none()
            );
            assert!(
                idx.declare_permission(type_id(0), Span::empty(10), "read", expr_id(1))
                    .is_none()
            );
        }

#[test]
fn preserves_relations_per_type() {
            let mut idx = SemanticIndex::with_capacity(8);

            idx.declare_type(type_id(0), Span::empty(0), "user");
            idx.declare_relation(type_id(0), Span::empty(10), "member", expr_id(0));
            idx.declare_type(type_id(1), Span::empty(5), "group");
            idx.declare_relation(type_id(1), Span::empty(15), "owner", expr_id(1));

            let schema = idx.into_schema();
            let user_sym = schema.types_interner().get("user").unwrap();
            let group_sym = schema.types_interner().get("group").unwrap();
            let member_sym = schema.relations_interner().get("member").unwrap();
            let owner_sym = schema.relations_interner().get("owner").unwrap();

                        
            assert!(schema.has_relation(user_sym, member_sym));
            assert!(!schema.has_relation(user_sym, owner_sym));
            assert!(schema.has_relation(group_sym, owner_sym));
            assert!(!schema.has_relation(group_sym, member_sym));
        }

#[test]
fn preserves_permissions_per_type() {
            let mut idx = SemanticIndex::with_capacity(8);

            idx.declare_type(type_id(0), Span::empty(0), "user");
            idx.declare_type(type_id(1), Span::empty(5), "group");
            idx.declare_permission(type_id(0), Span::empty(10), "read", expr_id(0));
            idx.declare_permission(type_id(1), Span::empty(15), "write", expr_id(1));

            let schema = idx.into_schema();
            let user_sym = schema.types_interner().get("user").unwrap();
            let group_sym = schema.types_interner().get("group").unwrap();
            let read_sym = schema.permissions_interner().get("read").unwrap();
            let write_sym = schema.permissions_interner().get("write").unwrap();

                        
            assert!(schema.has_permission(user_sym, read_sym));
            assert!(!schema.has_permission(user_sym, write_sym));
            assert!(schema.has_permission(group_sym, write_sym));
            assert!(!schema.has_permission(group_sym, read_sym));
        }

#[test]
fn empty_index_produces_empty_schema() {
            let idx = SemanticIndex::with_capacity(8);

            let schema = idx.into_schema();
            assert!(schema.types_interner().is_empty());
            assert!(schema.relations_interner().is_empty());
            assert!(schema.permissions_interner().is_empty());
        }

#[test]
fn single_type_no_errors() {
            let source = r#"type user {}
"#;
            let reporter = run_declare(source);

            assert!(reporter.is_clean());
        }

#[test]
fn two_distinct_types_no_errors() {
            let source = r#"type user {}
type group {}
"#;
            let reporter = run_declare(source);
            assert!(reporter.is_clean());
        }

#[test]
fn duplicate_type_emits_error() {
            let source = r#"type user {}
type user {}
"#;
            let reporter = run_declare(&source);

            assert_code(&reporter, "aes::semantic(duplicate_type)");
        }

#[test]
fn duplicate_type_stops_walking_members() {
            let source = r#"type dummy {}

type user {
  let member = dummy;
}

type user {
  let member = dummy;
}
"#;

            let reporter = run_declare(&source);
            assert_code(&reporter, "aes::semantic(duplicate_type)");
        }

#[test]
fn single_relation_no_errors() {
            let source = r#"type dummy {}

type user {
  let member = dummy;
}
"#;
            let reporter = run_declare(source);

            println!("{:?}", reporter.diagnostics);
            assert!(reporter.is_clean());
        }

#[test]
fn duplicate_relation_in_same_type_emits_error() {
            let source = r#"type dummy {}

type user {
  let member = dummy;
  let member = dummy;
}
"#;
            let reporter = run_declare(&source);

            assert_code(&reporter, "aes::semantic(duplicate_relation)");
        }

#[test]
fn same_relation_name_in_different_types_no_errors() {
            let source = r#"type dummy {}

type user {
  let member = dummy;
}

type group {
  let member = dummy;
}
"#;
            let reporter = run_declare(source);
            assert!(reporter.is_clean());
        }

#[test]
fn single_permission_no_errors() {
            let source = r#"type dummy {}

type user {
  def read = dummy;
}
"#;
            let reporter = run_declare(source);

            assert!(reporter.is_clean());
        }

#[test]
fn duplicate_permission_in_same_type_emits_error() {
            let source = r#"type dummy {}

type user {
  def read = dummy;
  def read = dummy;
}
"#;
            let reporter = run_declare(source);

            assert_code(&reporter, "aes::semantic(duplicate_permission)");
        }

#[test]
fn same_permission_name_in_different_types_no_errors() {
            let source = r#"type dummy {}

type user {
  def read = dummy;
}

type group {
  def read = dummy;
}
"#;
            let reporter = run_declare(source);

            assert!(reporter.is_clean());
        }

#[test]
fn relation_then_permission_same_name_emits_error() {
            let source = r#"type dummy {}

type user {
  let read = dummy;
  def read = dummy;
}
"#;
            let reporter = run_declare(source);

            assert_code(
                &reporter,
                "aes::semantic(relation_permission_name_collision)",
            );
        }

#[test]
fn permission_then_relation_same_name_emits_error() {
            let source = r#"type dummy {}

type user {
  def read = dummy;
  let read = dummy;
}
"#;
            let reporter = run_declare(source);

            assert_code(
                &reporter,
                "aes::semantic(relation_permission_name_collision)",
            );
        }

#[test]
fn collision_only_within_same_type() {
            let source = r#"type dummy {}

type user {
  let read = dummy;
}

type group {
  def read = dummy;
}
"#;
            let reporter = run_declare(source);

            assert!(reporter.is_clean());
        }

#[test]
fn valid_type_ref_in_relation_no_errors() {
            let source = r#"type group {}

type user {
  let owner = group;
}
"#;
            let reporter = run_verify(source);
            assert!(reporter.is_clean());
        }

#[test]
fn unknown_type_ref_emits_error() {
            let source = r#"type user {
  let owner = ghost;
}
"#;
            let reporter = run_verify(source);

            assert_code(&reporter, "aes::semantic(unknown_type)");
        }

#[test]
fn type_ref_in_permission_emits_error() {
            let source = r#"type group {}

type user {
  def read = group;
}
"#;

            let reporter = run_verify(source);

            assert_code(&reporter, "aes::semantic(type_ref_in_permission)");
        }

#[test]
fn valid_userset_ref_no_errors() {
            let source = r#"type group {
  let member = user;
}

type user {
  let owner = group::member;
}
"#;
            let reporter = run_verify(source);
            assert!(reporter.is_clean());
        }

#[test]
fn userset_ref_unknown_type_emits_error() {
            let source = r#"type user {
  let owner = ghost::member;
}
"#;
            let reporter = run_verify(source);
            assert_code(&reporter, "aes::semantic(unknown_type)");
        }

#[test]
fn userset_ref_unknown_member_emits_error() {
            let source = r#"type group {}

type user {
  let owner = group::ghost;
}
"#;
            let reporter = run_verify(source);
            assert_code(&reporter, "aes::semantic(unknown_member)");
        }

#[test]
fn userset_ref_to_permission_emits_error() {
            let source = r#"type group {
  let owner = group;
  def read = .owner;
}

type user {
  let owner = group::read;
}
"#;
            let reporter = run_verify(source);
            assert_code(&reporter, "aes::semantic(userset_ref_to_permission)");
        }

#[test]
fn userset_ref_in_permission_emits_error() {
            let source = r#"type group {
  let member = user;
}

type user {
  def read = group::member;
}
"#;
            let reporter = run_verify(source);
            assert_code(&reporter, "aes::semantic(type_ref_in_permission)");
        }

#[test]
fn valid_self_ref_in_permission_no_errors() {
            let source = r#"type group {}

type user {
  let owner = group;
  def read = .owner;
}
"#;
            let reporter = run_verify(source);
            assert!(reporter.is_clean());
        }

#[test]
fn self_ref_in_relation_emits_error() {
            let source = r#"type user {
  let owner = .owner;
}
"#;
            let reporter = run_verify(source);
            assert_code(&reporter, "aes::semantic(self_ref_in_relation)");
        }

#[test]
fn self_ref_unknown_relation_emits_error() {
            let source = r#"type user {
  def read = .ghost;
}
"#;
            let reporter = run_verify(source);
            assert_code(&reporter, "aes::semantic(unknown_relation)");
        }

#[test]
fn valid_traversal_no_errors() {
            let source = r#"type group {
  let member = user;
  def read = .member;
}

type user {
  let owner = group;
  def read = .owner.read;
}
"#;
            let reporter = run_verify(source);

            assert!(reporter.is_clean());
        }

#[test]
fn traversal_in_relation_emits_error() {
            let source = r#"type user {
  let owner = .owner.read;
}
"#;
            let reporter = run_verify(source);

            assert_code(&reporter, "aes::semantic(self_ref_in_relation)");
        }

#[test]
fn traversal_unknown_relation_emits_error() {
            let source = r#"type user {
  def read = .ghost.read;
}
"#;
            let reporter = run_verify(source);
            assert_code(&reporter, "aes::semantic(unknown_relation)");
        }

#[test]
fn traversal_on_permission_emits_error() {
            let source = r#"type user {
  let owner = user;
  def read = .owner;
  def view = .read.view;
}
"#;
            let reporter = run_verify(source);
            assert_code(&reporter, "aes::semantic(traversal_on_permission)");
        }

#[test]
fn traversal_unknown_permission_on_target_type_emits_error() {
            let source = r#"type group {}

type user {
  let owner = group;
  def read = .owner.ghost;
}
"#;
            let reporter = run_verify(source);
            assert_code(&reporter, "aes::semantic(unknown_permission_on_type)");
        }

#[test]
fn traversal_checks_all_union_targets() {
            let source = r#"type group {
  let owner = group;
  def read = .owner;
}

type org {}

type user {
  let owner = group | org;
  def read = .owner.read;
}
"#;
            let reporter = run_verify(source);
            assert_code(&reporter, "aes::semantic(unknown_permission_on_type)");
        }
