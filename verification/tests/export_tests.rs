use aegis::export::Exporter;
use aegis::ir::{Actor, ActorType, Expression, Kind, Relation, Schema, Term};
use aegis::parser::Parser;
use aegis::semantic::analyze;
use aegis::testing::{file_ref, Reporter};

fn export(source: &str) -> Schema {
    let file = file_ref(source);
    let mut reporter = Reporter::new();

    let ast = Parser::new(file, &mut reporter).parse();
    assert!(reporter.is_clean(), "parse errors: {:?}", reporter.messages());

    let schema = analyze(file, &ast, &mut reporter);
    assert!(schema.is_some(), "semantic errors: {:?}", reporter.messages());

    Exporter::new(&ast, file).export_schema()
}

fn show_actor(a: &ActorType) -> String {
    match &a.actor {
        Some(Actor::Direct(name)) => name.clone(),
        Some(Actor::Userset(u)) => format!("{}::{}", u.ty, u.member),
        None => "<none>".to_string(),
    }
}

fn actors(r: &Relation) -> Vec<String> {
    r.actors.iter().map(show_actor).collect()
}

fn show_expr(e: &Expression) -> String {
    match &e.kind {
        None => "<none>".to_string(),
        Some(Kind::Term(t)) => match &t.term {
            Some(Term::SelfRef(s)) => format!(".{}", s.relation),
            Some(Term::Traversal(t)) => format!(".{}.{}", t.relation, t.permission),
            None => "<empty>".to_string(),
        },
        Some(Kind::Union(u)) => format!("union({})", u.terms.iter().map(show_expr).collect::<Vec<_>>().join(", ")),
        Some(Kind::Intersection(i)) => format!("intersection({})", i.terms.iter().map(show_expr).collect::<Vec<_>>().join(", ")),
        Some(Kind::Difference(d)) => format!(
            "difference({}, {})",
            d.lhs.as_ref().map(|e| show_expr(e)).unwrap_or_else(|| "<none>".to_string()),
            d.rhs.as_ref().map(|e| show_expr(e)).unwrap_or_else(|| "<none>".to_string()),
        ),
    }
}

fn perm(schema: &Schema, ty: usize, index: usize) -> String {
    show_expr(schema.types[ty].permissions[index].expr.as_ref().expect("permission without expression"))
}

/// Each type as one line: `type name { let r = [actors]; def p = expr; }`.
fn show_schema(schema: &Schema) -> Vec<String> {
    schema
        .types
        .iter()
        .map(|t| {
            let mut members: Vec<String> = Vec::new();
            for r in &t.relations {
                members.push(format!("let {} = [{}];", r.name, actors(r).join(", ")));
            }
            for p in &t.permissions {
                let e = p.expr.as_ref().map(show_expr).unwrap_or_else(|| "<none>".to_string());
                members.push(format!("def {} = {};", p.name, e));
            }
            if members.is_empty() {
                format!("type {} {{}}", t.name)
            } else {
                format!("type {} {{ {} }}", t.name, members.join(" "))
            }
        })
        .collect()
}

#[test]
fn single_direct_actor() {
            let source = r#"type user {}

type doc {
    let owner = user;
}
"#;
            let schema = export(source);
    assert_eq!(actors(&schema.types[1].relations[0]), vec!["user"]);
}

#[test]
fn single_userset_actor() {
            let source = r#"type team {
    let member = team;
}

type doc {
    let editor = team::member;
}
"#;
            let schema = export(source);
    assert_eq!(actors(&schema.types[1].relations[0]), vec!["team::member"]);
}

#[test]
fn union_of_direct_actors() {
            let source = r#"type user {}

type group {}

type doc {
    let reader = user | group;
}
"#;
            let schema = export(source);
    assert_eq!(actors(&schema.types[2].relations[0]), vec!["user", "group"]);
}

#[test]
fn union_of_mixed_actors() {
            let source = r#"type user {}

type team {
    let member = team;
}

type doc {
    let reader = user | team::member;
}
"#;
            let schema = export(source);
    assert_eq!(actors(&schema.types[2].relations[0]), vec!["user", "team::member"]);
}

#[test]
fn three_way_union() {
            let source = r#"type user {}

type team {
    let member = team;
}

type org {
    let admin = org;
}

type doc {
    let reader = user | team::member | org::admin;
}
"#;
            let schema = export(source);
    assert_eq!(actors(&schema.types[3].relations[0]), vec!["user", "team::member", "org::admin"]);
}

#[test]
fn export_self_ref() {
            let source = r#"type user {}

type doc {
    let owner = user;
    def read = .owner;
}
"#;
            let schema = export(source);
    assert_eq!(perm(&schema, 1, 0), ".owner");
}

#[test]
fn export_traversal() {
            let source = r#"type user {}

type group {
    let member = user;
    def read = .member;
}

type doc {
    let parent = group;
    def read = .parent.read;
}
"#;
            let schema = export(source);
    assert_eq!(perm(&schema, 2, 0), ".parent.read");
}

#[test]
fn binary_union() {
            let source = r#"type user {}

type doc {
    let owner = user;
    let editor = user;
    def read = .owner | .editor;
}
"#;
            let schema = export(source);
    assert_eq!(perm(&schema, 1, 0), "union(.owner, .editor)");
}

#[test]
fn binary_intersection() {
            let source = r#"type user {}

type doc {
    let approved = user;
    let active = user;
    def member = .approved & .active;
}
"#;
            let schema = export(source);
    assert_eq!(perm(&schema, 1, 0), "intersection(.approved, .active)");
}

#[test]
fn binary_exclusion() {
            let source = r#"type user {}

type doc {
    let all = user;
    let banned = user;
    def member = .all - .banned;
}
"#;
            let schema = export(source);
    assert_eq!(perm(&schema, 1, 0), "difference(.all, .banned)");
}

#[test]
fn nary_union_flattening() {
            let source = r#"type user {}

type doc {
    let a = user;
    let b = user;
    let c = user;
    def perm = .a | .b | .c;
}
"#;
            let schema = export(source);
    assert_eq!(perm(&schema, 1, 0), "union(.a, .b, .c)");
}

#[test]
fn nary_intersection_flattening() {
            let source = r#"type user {}

type doc {
    let a = user;
    let b = user;
    let c = user;
    def perm = .a & .b & .c;
}
"#;
            let schema = export(source);
    assert_eq!(perm(&schema, 1, 0), "intersection(.a, .b, .c)");
}

#[test]
fn exclusion_not_flattened() {
            let source = r#"type user {}

type doc {
    let a = user;
    let b = user;
    let c = user;
    def perm = .a - .b - .c;
}
"#;
            let schema = export(source);
    assert_eq!(perm(&schema, 1, 0), "difference(difference(.a, .b), .c)");
}

#[test]
fn mixed_operators_precedence() {
            let source = r#"type user {}

type doc {
    let a = user;
    let b = user;
    let c = user;
    def perm = .a | .b & .c;
}
"#;
            let schema = export(source);
    assert_eq!(perm(&schema, 1, 0), "union(.a, intersection(.b, .c))");
}

#[test]
fn parenthesized_grouping() {
            let source = r#"type user {}

type doc {
    let a = user;
    let b = user;
    let c = user;
    def perm = (.a | .b) & .c;
}
"#;
            let schema = export(source);
    assert_eq!(perm(&schema, 1, 0), "intersection(union(.a, .b), .c)");
}

#[test]
fn empty_type() {
            let source = r#"type user {}
"#;
            let schema = export(source);
    assert_eq!(show_schema(&schema), vec!["type user {}"]);
}

#[test]
fn type_with_relation_only() {
            let source = r#"type user {}

type doc {
    let owner = user;
}
"#;
            let schema = export(source);
    assert_eq!(show_schema(&schema), vec!["type user {}", "type doc { let owner = [user]; }"]);
}

#[test]
fn type_with_permission_only() {
            let source = r#"type user {}

type doc {
    let owner = user;
    def read = .owner;
}
"#;
            let schema = export(source);
    assert_eq!(show_schema(&schema), vec!["type user {}", "type doc { let owner = [user]; def read = .owner; }"]);
}

#[test]
fn multiple_types() {
            let source = r#"type user {}

type group {
    let member = user;
}

type doc {
    let owner = group;
    def read = .owner.member;
}
"#;
            let schema = export(source);
    assert_eq!(show_schema(&schema), vec!["type user {}", "type group { let member = [user]; }", "type doc { let owner = [group]; def read = .owner.member; }"]);
}

#[test]
fn export_full_github_sample() {
            let source = r#"type user {}

type team {
    let parent = organization | team;
    let maintainer = user;
    let direct_member = user;

    def member = .maintainer | .direct_member;
    def change_team_name = .maintainer | .parent.change_team_name;
}

type organization {
    let owner = user;
    let member = user;
    let billing_manager = user;
    let team_maintainer = user;

    def create_repository = .owner | .member;
    def manage_billing = .owner | .billing_manager;
    def user_seat = .owner | .member | .team_maintainer;
    def change_team_name = .team_maintainer | .owner;
}

type repository {
    let organization = organization;

    let reader = user | team::direct_member;
    let triager = user | team::direct_member;
    let writer = user | team::direct_member;
    let maintainer = user | team::direct_member;
    let admin = user | team::direct_member;

    def push = .writer | .maintainer | .admin | .organization.owner;
    def clone = .reader | .triager | .push;
    def read = .clone | .organization.owner;
    def delete = .admin | .organization.owner;

    def create_issue = .read;
    def close_issue = .triager | .writer | .maintainer | .admin | .organization.owner;

    def create_pull_request = .read;
    def merge_pull_request = .maintainer | .organization.owner;
    def close_pull_request = .close_issue;

    def manage_setting = .maintainer | .admin | .organization.owner;
    def manage_sensitive_setting = .admin | .organization.owner;
}
"#;
            let schema = export(source);
    assert_eq!(
        show_schema(&schema),
        vec![
            "type user {}",
            "type team { let parent = [organization, team]; let maintainer = [user]; let direct_member = [user]; def member = union(.maintainer, .direct_member); def change_team_name = union(.maintainer, .parent.change_team_name); }",
            "type organization { let owner = [user]; let member = [user]; let billing_manager = [user]; let team_maintainer = [user]; def create_repository = union(.owner, .member); def manage_billing = union(.owner, .billing_manager); def user_seat = union(.owner, .member, .team_maintainer); def change_team_name = union(.team_maintainer, .owner); }",
            "type repository { let organization = [organization]; let reader = [user, team::direct_member]; let triager = [user, team::direct_member]; let writer = [user, team::direct_member]; let maintainer = [user, team::direct_member]; let admin = [user, team::direct_member]; def push = union(.writer, .maintainer, .admin, .organization.owner); def clone = union(.reader, .triager, .push); def read = union(.clone, .organization.owner); def delete = union(.admin, .organization.owner); def create_issue = .read; def close_issue = union(.triager, .writer, .maintainer, .admin, .organization.owner); def create_pull_request = .read; def merge_pull_request = union(.maintainer, .organization.owner); def close_pull_request = .close_issue; def manage_setting = union(.maintainer, .admin, .organization.owner); def manage_sensitive_setting = union(.admin, .organization.owner); }",
        ]
    );
}

#[test]
fn minimal_schema() {
            let source = r#"type group {}

type user {
  let owner = group;
  def read = .owner;
}
"#;
            let schema = export(source);
            assert_eq!(show_schema(&schema), vec!["type group {}", "type user { let owner = [group]; def read = .owner; }"]);
        }

#[test]
fn golden_full_github_sample() {
            let source = r#"type user {}

type team {
    let parent = organization | team;
    let maintainer = user;
    let direct_member = user;

    def member = .maintainer | .direct_member;
    def change_team_name = .maintainer | .parent.change_team_name;
}

type organization {
    let owner = user;
    let member = user;
    let billing_manager = user;
    let team_maintainer = user;

    def create_repository = .owner | .member;
    def manage_billing = .owner | .billing_manager;
    def user_seat = .owner | .member | .team_maintainer;
    def change_team_name = .team_maintainer | .owner;
}

type repository {
    let organization = organization;

    let reader = user | team::direct_member;
    let triager = user | team::direct_member;
    let writer = user | team::direct_member;
    let maintainer = user | team::direct_member;
    let admin = user | team::direct_member;

    def push = .writer | .maintainer | .admin | .organization.owner;
    def clone = .reader | .triager | .push;
    def read = .clone | .organization.owner;
    def delete = .admin | .organization.owner;

    def create_issue = .read;
    def close_issue = .triager | .writer | .maintainer | .admin | .organization.owner;

    def create_pull_request = .read;
    def merge_pull_request = .maintainer | .organization.owner;
    def close_pull_request = .close_issue;

    def manage_setting = .maintainer | .admin | .organization.owner;
    def manage_sensitive_setting = .admin | .organization.owner;
}
"#;
            let schema = export(source);
            assert_eq!(
        show_schema(&schema),
        vec![
            "type user {}",
            "type team { let parent = [organization, team]; let maintainer = [user]; let direct_member = [user]; def member = union(.maintainer, .direct_member); def change_team_name = union(.maintainer, .parent.change_team_name); }",
            "type organization { let owner = [user]; let member = [user]; let billing_manager = [user]; let team_maintainer = [user]; def create_repository = union(.owner, .member); def manage_billing = union(.owner, .billing_manager); def user_seat = union(.owner, .member, .team_maintainer); def change_team_name = union(.team_maintainer, .owner); }",
            "type repository { let organization = [organization]; let reader = [user, team::direct_member]; let triager = [user, team::direct_member]; let writer = [user, team::direct_member]; let maintainer = [user, team::direct_member]; let admin = [user, team::direct_member]; def push = union(.writer, .maintainer, .admin, .organization.owner); def clone = union(.reader, .triager, .push); def read = union(.clone, .organization.owner); def delete = union(.admin, .organization.owner); def create_issue = .read; def close_issue = union(.triager, .writer, .maintainer, .admin, .organization.owner); def create_pull_request = .read; def merge_pull_request = union(.maintainer, .organization.owner); def close_pull_request = .close_issue; def manage_setting = union(.maintainer, .admin, .organization.owner); def manage_sensitive_setting = union(.admin, .organization.owner); }",
        ]
    );
        }
