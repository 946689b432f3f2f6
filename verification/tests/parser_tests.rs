use aegis::ast::{
    AssertId, AssertionKind, Ast, BinaryOp, DefMemberId, ExprTerm, LetMemberId, RelationId, TestDefId, TypeDefId,
};
use aegis::parser::Parser;
use aegis::diagnostic::Reporter as _;
use aegis::testing::{file_ref, Reporter, URN};

fn parse(source: &str) -> (Ast, Reporter) {
    let file = file_ref(source);
    let mut reporter = Reporter::new();
    let ast = Parser::new(file, &mut reporter).parse();

    (ast, reporter)
}

fn assert_code(r: &Reporter, urn: &str) {
    assert!(r.has_errors());
    assert_eq!(r.diagnostics.len(), 1);
    assert_eq!(r.diagnostics[0].urn(), urn);
}

/// Deterministic generators of syntactically valid programs.
pub struct Gen(u64);

impl Gen {
    pub fn new(seed: u64) -> Self {
        Gen(seed)
    }

    fn next(&mut self) -> u64 {
        self.0 = self.0.wrapping_mul(6364136223846793005).wrapping_add(1442695040888963407);
        self.0 >> 33
    }

    fn below(&mut self, n: u64) -> u64 {
        self.next() % n
    }

    pub fn ident(&mut self) -> String {
        loop {
            let len = self.below(8) as usize;
            let mut s = String::new();
            s.push((b'a' + self.below(26) as u8) as char);
            let tail = b"abcdefghijklmnopqrstuvwxyz0123456789_";
            for _ in 0..len {
                s.push(tail[self.below(tail.len() as u64) as usize] as char);
            }
            if !matches!(s.as_str(), "type" | "let" | "def" | "test" | "relations" | "assert" | "assert_not") {
                return s;
            }
        }
    }

    pub fn expr(&mut self, depth: u32) -> String {
        if depth == 0 || self.below(3) == 0 {
            return match self.below(4) {
                0 => self.ident(),
                1 => format!("{}::{}", self.ident(), self.ident()),
                2 => format!(".{}", self.ident()),
                _ => format!(".{}.{}", self.ident(), self.ident()),
            };
        }
        match self.below(4) {
            0 => format!("{} | {}", self.expr(depth - 1), self.expr(depth - 1)),
            1 => format!("{} & {}", self.expr(depth - 1), self.expr(depth - 1)),
            2 => format!("{} - {}", self.expr(depth - 1), self.expr(depth - 1)),
            _ => format!("({})", self.expr(depth - 1)),
        }
    }

    pub fn type_def(&mut self) -> String {
        let name = self.ident();
        let mut members = Vec::new();
        for _ in 0..self.below(4) {
            members.push(format!("let {} = {};", self.ident(), self.expr(4)));
        }
        for _ in 0..self.below(4) {
            members.push(format!("def {} = {};", self.ident(), self.expr(4)));
        }
        format!("type {name} {{\n    {}\n}}", members.join("\n    "))
    }

    fn quoted_string(&mut self) -> String {
        let chars = b"abcdefghijklmnopqrstuvwxyzABCDEFGHIJKLMNOPQRSTUVWXYZ0123456789_";
        let len = 1 + self.below(8) as usize;
        let s: String = (0..len).map(|_| chars[self.below(chars.len() as u64) as usize] as char).collect();
        format!("\"{s}\"")
    }

    fn instance(&mut self) -> String {
        format!("{}({})", self.ident(), self.quoted_string())
    }

    fn subject(&mut self) -> String {
        if self.below(2) == 0 {
            self.instance()
        } else {
            format!("{}::{}", self.instance(), self.ident())
        }
    }

    fn relation_stmt(&mut self) -> String {
        if self.below(2) == 0 {
            format!("{}.{}:{};", self.instance(), self.ident(), self.subject())
        } else {
            let inst = self.instance();
            let n = 1 + self.below(2);
            let assigns: Vec<String> = (0..n).map(|_| format!(".{}:{};", self.ident(), self.subject())).collect();
            format!("{}.{{ {} }};", inst, assigns.join(" "))
        }
    }

    fn assertion(&mut self) -> String {
        let kw = if self.below(2) == 0 { "assert" } else { "assert_not" };
        format!("{kw}( {}.{}( {} ) );", self.instance(), self.ident(), self.instance())
    }

    pub fn test_def(&mut self) -> String {
        let name = self.quoted_string();
        let rels: Vec<String> = (0..self.below(4)).map(|_| self.relation_stmt()).collect();
        let asserts: Vec<String> = (0..self.below(4)).map(|_| self.assertion()).collect();
        format!(
            "test {name} {{\n    relations {{\n        {}\n    }}\n    {}\n}}",
            rels.join("\n        "),
            asserts.join("\n    ")
        )
    }

    /// A syntactically valid (but not necessarily semantically valid) program.
    pub fn syntactic_program(&mut self) -> String {
        let mut parts: Vec<String> = (0..self.below(4)).map(|_| self.type_def()).collect();
        for _ in 0..self.below(2) {
            parts.push(self.test_def());
        }
        parts.join("\n\n")
    }
}

fn programs() -> Vec<String> {
    let mut g = Gen::new(11);
    (0..128).map(|_| g.syntactic_program()).collect()
}

#[test]
fn parse_never_panics() {
    let mut g = Gen::new(5);
    let mut state: u64 = 3;
    for round in 0..256 {
        state = state.wrapping_mul(6364136223846793005).wrapping_add(1442695040888963407);
        let len = ((state >> 33) % 257) as usize;
        let s: String = if round % 2 == 0 {
            (0..len)
                .filter_map(|k| {
                    let v = ((state >> (k % 32)) ^ (k as u64 * 2654435761)) % 0x3000;
                    char::from_u32(v as u32).filter(|c| !c.is_control())
                })
                .collect()
        } else {
            let p = g.syntactic_program();
            p.chars().take(len).collect()
        };
        let file = file_ref(&s);
        let reporter = Reporter::new();
        let _ = Parser::new(file, reporter).parse();
    }
}

#[test]
fn valid_programs_produce_no_errors() {
    for source in programs() {
        let (_, reporter) = parse(&source);
        assert!(
            reporter.diagnostics.is_empty(),
            "valid program had errors:\nsource:\n{source}\nerrors: {:?}",
            reporter.messages()
        );
    }
}

#[test]
fn valid_program_spans_in_bounds() {
    for source in programs() {
        let (ast, _) = parse(&source);
        let len = source.len() as u32;

        for i in 0..ast.exprs().len() {
            let expr = ast.exprs().at(aegis::ast::ExprId::new(i as u32));
            let span = expr.span;
            assert!(
                span.start() <= len && span.end() <= len,
                "expr span out of bounds: {:?} for source len {}",
                span, len
            );
        }

        for i in 0..ast.types().len() {
            let ty = ast.types().at(TypeDefId::new(i as u32));
            let span = ty.span;
            assert!(
                span.start() <= len && span.end() <= len,
                "type span out of bounds: {:?} for source len {}",
                span, len
            );
        }
    }
}

#[test]
fn pool_sizes_consistent_for_valid_programs() {
    for source in programs() {
        let (ast, reporter) = parse(&source);
        assert!(reporter.is_clean());

        // Every let/def expr must resolve to a valid ExprId
        for i in 0..ast.lets().len() {
            let m = ast.lets().at(LetMemberId::new(i as u32));
            assert!(m.expr.as_index() < ast.exprs().len(), "let member expr id out of bounds");
        }
        for i in 0..ast.defs().len() {
            let m = ast.defs().at(DefMemberId::new(i as u32));
            assert!(m.expr.as_index() < ast.exprs().len(), "def member expr id out of bounds");
        }
        // Every relation must reference a valid SubjectId
        for i in 0..ast.relations().len() {
            let rel = ast.relations().at(RelationId::new(i as u32));
            assert!(rel.subject.as_index() < ast.subjects().len(), "relation subject id out of bounds");
        }
    }
}

#[test]
fn empty_source() {
        let source = "";
        let (ast, reporter) = parse(source);
        assert!(reporter.is_clean());

        assert_eq!(ast.types().len(), 0);
        assert_eq!(ast.tests().len(), 0);
    }

#[test]
fn whitespace_only() {
        let source = "   \n\t\n  ";
        let (ast, reporter) = parse(source);
        assert!(reporter.is_clean());

        assert_eq!(ast.types().len(), 0);
    }

#[test]
fn comment_only() {
        let source = r#"// just a comment
// another one
"#;
        let (ast, reporter) = parse(source);
        assert!(reporter.is_clean());

        assert_eq!(ast.types().len(), 0);
    }

#[test]
fn missing_semicolon_in_let() {
        let source = r#"type t {
  let x = user
  let y = team;
}
"#;
        let (ast, reporter) = parse(source);
        assert!(!reporter.is_clean());
        assert_code(&reporter, "aes::parser(missing_semicolon)");

        // Should still parse both members
        assert_eq!(ast.lets().len(), 2);

    }

#[test]
fn unexpected_token_in_type_body() {
        let source = r#"type t {
  @ let x = user;
}
"#;
        let (ast, reporter) = parse(source);
        assert!(!reporter.is_clean());

        assert_code(&reporter, "aes::lexer(unexpected_character)");

        // let member should still be parsed after recovery
        assert_eq!(ast.lets().len(), 1);

    }

#[test]
fn junk_between_types() {
        let source = r#"type a {}
blah garbage type b {}
"#;
        let (ast, reporter) = parse(source);
        assert!(!reporter.is_clean());
        assert_code(&reporter, "aes::parser(unexpected_token)");

        assert_eq!(ast.types().len(), 2);

    }

#[test]
fn empty_source_no_crash() {
        let source = "";
        let (_, reporter) = parse(source);
        assert!(reporter.is_clean());
    }

#[test]
fn missing_type_name() {
        let source = r#"type {}
"#;
        let (ast, reporter) = parse(source);
        assert!(!reporter.is_clean());

        assert_code(&reporter, "aes::parser(expected_token)");

        // Should still produce a type def node
        assert_eq!(ast.types().len(), 1);

    }

#[test]
fn missing_brace_at_eof() {
        let source = r#"type t {
"#;
        let (ast, reporter) = parse(source);
        assert!(!reporter.is_clean());
        assert_code(&reporter, "aes::parser(unclosed_delimiter)");

        assert_eq!(ast.types().len(), 1);

    }

#[test]
fn missing_relations_keyword() {
        let source = r#"test "t" {
  assert( org("a").x( user("b") ) );
}
"#;
        let (_, reporter) = parse(source);
        assert_code(&reporter, "aes::parser(missing_relations_block)");

    }

#[test]
fn full_schema_and_test() {
        let source = r#"type user {}

type team {
  let parent = organization | team;
  let maintainer = user;
  let direct_member = user;

  def member = .maintainer | .direct_member;
}

type organization {
  let owner = user;
  let member = user;

  def create_repository = .owner | .member;
  def manage_billing = .owner;
}

type repository {
  let organization = organization;
  let reader = user | team::member;
  let writer = user | team::member;

  def push = .writer | .organization.owner;
  def read = .reader | .organization.owner;
}

test "repo_access" {
  relations {
    organization("acme") .{
      .owner: user("alice");
      .member: user("bob");
    };
    team("infra") .{
      .parent: organization("acme");
      .maintainer: user("charlie");
      .direct_member: user("david");
    };
    repository("gateway") .{
      .organization: organization("acme");
      .writer: team("infra")::member;
      .reader: user("eve");
    };
  }

  assert( organization("acme").manage_billing( user("alice") ) );
  assert( repository("gateway").push( user("charlie") ) );
  assert_not( repository("gateway").push( user("eve") ) );
}
"#;
        let (ast, reporter) = parse(source);
        assert!(reporter.is_clean());

        assert_eq!(ast.types().len(), 4);
        assert_eq!(ast.tests().len(), 1);

        // Check relations count: 3 org + 2 team + 3 repo = 8
        assert_eq!(ast.relations().len(), 8);

        // Check assertions count
        assert_eq!(ast.asserts().len(), 3);

        // Verify first assertion
        let a0 = ast.asserts().at(AssertId::new(0));
        assert_eq!(a0.kind, AssertionKind::Assert);
        assert_eq!(a0.resource.ty().text(source), "organization");
        assert_eq!(a0.resource.ident().text(source), r#""acme""#);
        assert_eq!(a0.permission.text(source), "manage_billing");
        assert_eq!(a0.actor.ty().text(source), "user");
        assert_eq!(a0.actor.ident().text(source), r#""alice""#);

        // Verify last assertion is assert_not
        let a2 = ast.asserts().at(AssertId::new(2));
        assert_eq!(a2.kind, AssertionKind::AssertNot);
    }

#[test]
fn ast_empty_type() {
        let source = "type user {}";
        let (ast, reporter) = parse(source);
        assert!(reporter.is_clean());

    }

#[test]
fn ast_type_with_lets() {
        let source = r#"type team {
  let parent = organization;
  let member = user;
}
"#;
        let (ast, reporter) = parse(source);
        assert!(reporter.is_clean());

    }

#[test]
fn ast_type_with_defs() {
        let source = r#"type repo {
  def push = .writer | .organization.owner;
}
"#;
        let (ast, reporter) = parse(source);
        assert!(reporter.is_clean());

    }

#[test]
fn ast_expr_precedence() {
        let source = r#"type t {
  let x = a | b & c - d;
}
"#;
        let (ast, reporter) = parse(source);
        assert!(reporter.is_clean());

    }

#[test]
fn ast_expr_parenthesized() {
        let source = r#"type t {
  let x = (a | b) & c;
}
"#;
        let (ast, reporter) = parse(source);
        assert!(reporter.is_clean());

    }

#[test]
fn ast_userset_ref() {
        let source = r#"type t {
  let x = team::member;
}
"#;
        let (ast, reporter) = parse(source);
        assert!(reporter.is_clean());

    }

#[test]
fn ast_test_with_relations_and_asserts() {
        let source = r#"test "access" {
  relations {
    org("acme") .owner: user("alice");
    repo("gw") .writer: team("dev")::member;
  }

  assert( org("acme").manage( user("alice") ) );
  assert_not( repo("gw").push( user("bob") ) );
}
"#;
        let (ast, reporter) = parse(source);
        assert!(reporter.is_clean());

    }

#[test]
fn ast_block_relations() {
        let source = r#"test "t" {
  relations {
    org("a") .{
      .owner: user("x");
      .member: user("y");
    };
  }
}
"#;
        let (ast, reporter) = parse(source);
        assert!(reporter.is_clean());
    }

#[test]
fn ast_full_realistic_schema() {
        let source = r#"type user {}

type organization {
  let owner = user;
  let member = user;

  def manage = .owner;
}

type repository {
  let org = organization;
  let reader = user | team::member;

  def push = .writer | .org.owner;
}

test "repo_flow" {
  relations {
    organization("acme") .{
      .owner: user("alice");
      .member: user("bob");
    };
    repository("gw") .{
      .org: organization("acme");
      .reader: user("eve");
    };
  }

  assert( organization("acme").manage( user("alice") ) );
  assert_not( repository("gw").push( user("eve") ) );
}
"#;
        let (ast, reporter) = parse(source);
        assert!(reporter.is_clean());

    }

#[test]
fn diag_missing_semicolon() {
        let source = r#"type t {
  let x = user
}
"#;
        let (_, reporter) = parse(source);
        assert_code(&reporter, "aes::parser(missing_semicolon)");

    }

#[test]
fn diag_unclosed_brace() {
        let source = r#"type t {
  let x = user;
"#;
        let (_, reporter) = parse(source);
        assert_code(&reporter, "aes::parser(unclosed_delimiter)");

    }

#[test]
fn diag_unexpected_top_level() {
        let source = r#"@ type t {}
"#;
        let (ast, reporter) = parse(source);
        assert_code(&reporter, "aes::parser(unexpected_token)");
        assert_eq!(ast.types().len(), 1);

    }

#[test]
fn diag_duplicate_relations() {
        let source = r#"test "t" {
  relations {}
  relations {}
}
"#;
        let (_, reporter) = parse(source);
        assert_code(&reporter, "aes::parser(duplicate_relations_block)");

    }

#[test]
fn diag_expected_term() {
        let source = r#"type t {
  let x = @;
}
"#;
        let (_, reporter) = parse(source);
        assert_code(&reporter, "aes::parser(expected_term)");

    }

#[test]
fn diag_missing_relations_block() {
        let source = r#"test "t" {
  assert( org("a").x( user("b") ) );
}
"#;
        let (_, reporter) = parse(source);
        assert_code(&reporter, "aes::parser(missing_relations_block)");

    }

#[test]
fn diag_missing_semicolon_in_let() {
        let source = r#"type t {
  let x = user
  let y = team;
}
"#;
        let (_, reporter) = parse(source);
        assert_code(&reporter, "aes::parser(missing_semicolon)");

    }

#[test]
fn diag_junk_between_types() {
        let source = r#"type a {}
blah garbage type b {}
"#;
        let (_, reporter) = parse(source);
        assert_code(&reporter, "aes::parser(unexpected_token)");

    }

#[test]
fn diag_unterminated_string() {
            let source = r#"type t {
  let x = "oops
}
"#;
            let (_, reporter) = parse(source);
            assert_code(&reporter, "aes::lexer(unterminated_string_literal)");

        }

#[test]
fn diag_bad_slash() {
            let source = r#"type t {
  let x = / user;
}
"#;
            let (_, reporter) = parse(source);
            assert_code(&reporter, "aes::lexer(unexpected_character)");

        }

#[test]
fn diag_unknown_chars() {
            let source = r#"type t {
  let x = @#$ user;
}
"#;
            let (_, reporter) = parse(source);
            assert_code(&reporter, "aes::lexer(unexpected_character)");

        }

#[test]
fn diag_digit_start() {
            let source = r#"type t {
  let x = 42user;
}
"#;
            let (_, reporter) = parse(source);
            assert_code(&reporter, "aes::lexer(unexpected_character)");

        }

#[test]
fn precedence_union_intersection() {
        let (ast, reporter) = parse("type t { let x = a | b & c; }");
        assert!(reporter.is_clean());

        let let_def = ast.lets().at(LetMemberId::new(0));
        let root = ast.exprs().at(let_def.expr);

        let ExprTerm::Binary(expr) = root.term else {
            panic!("expected Binary Union, got {:?}", root.term);
        };
        assert_eq!(expr.op, BinaryOp::Union);

        let rhs_expr = ast.exprs().at(expr.rhs).term;
        let ExprTerm::Binary(rhs) = rhs_expr else {
            panic!("expected Intersection, got {:?}", rhs_expr);
        };

        assert_eq!(rhs.op, BinaryOp::Intersection);
    }

#[test]
fn precedence_exclusion_intersection() {
        let (ast, reporter) = parse("type t { let x = a & b - c; }");
        assert!(reporter.is_clean());

        let let_def = ast.lets().at(LetMemberId::new(0));
        let root = ast.exprs().at(let_def.expr);

        let ExprTerm::Binary(expr) = root.term else {
            panic!("expected Binary Intersection, got {:?}", root.term);
        };
        assert_eq!(expr.op, BinaryOp::Intersection);

        let rhs_expr = ast.exprs().at(expr.rhs).term;
        let ExprTerm::Binary(rhs) = rhs_expr else {
            panic!("expected Exclusion, got {:?}", rhs_expr);
        };

        assert_eq!(rhs.op, BinaryOp::Exclusion);
    }

#[test]
fn parenthesized_override() {
        let (ast, reporter) = parse("type t { let x = (a | b) & c; }");
        assert!(reporter.is_clean());

        let let_def = ast.lets().at(LetMemberId::new(0));
        let root = ast.exprs().at(let_def.expr);

        let ExprTerm::Binary(expr) = root.term else {
            panic!("expected Intersection, got {:?}", root.term);
        };
        assert_eq!(expr.op, BinaryOp::Intersection);

        let lhs_expr = ast.exprs().at(expr.lhs).term;
        let ExprTerm::Paren(inner) = lhs_expr else {
            panic!("expected Paren, got {:?}", lhs_expr);
        };

        let inner_expr = ast.exprs().at(inner.inner).term;
        let ExprTerm::Binary(inner_expr) = inner_expr else {
            panic!("expected Union inside Paren, got {:?}", inner_expr);
        };

        assert_eq!(inner_expr.op, BinaryOp::Union);
    }

#[test]
fn paren_node_preserved() {
        let (ast, reporter) = parse("type t { let x = (user); }");
        assert!(reporter.is_clean());

        let let_def = ast.lets().at(LetMemberId::new(0));
        let root = ast.exprs().at(let_def.expr);
        assert!(matches!(root.term, ExprTerm::Paren(_)));
    }

#[test]
fn type_def_empty() {
            let source = r#"type user {}
"#;
            let (ast, reporter) = parse(source);
            assert!(reporter.is_clean());

            assert_eq!(ast.types().len(), 1);
            let ty = ast.types().at(TypeDefId::new(0));

            assert_eq!(ty.name.text(source), "user");
            assert!(ty.lets.is_empty());
            assert!(ty.defs.is_empty());
        }

#[test]
fn multiple_empty() {
            let source = r#"type user {}
type team {}
type org {}
"#;
            let (ast, reporter) = parse(source);
            assert!(reporter.is_clean());

            assert_eq!(ast.types().len(), 3);
            assert_eq!(
                ast.iter_types().into_iter()
                    .map(|t| t.name.text(source))
                    .collect::<Vec<_>>(),
                vec!["user", "team", "org"]
            );
        }

#[test]
fn with_let_members() {
            let source = r#"type team {
  let parent = organization;
  let member = user;
}
"#;
            let (ast, reporter) = parse(source);
            assert!(reporter.is_clean());

            assert_eq!(ast.types().len(), 1);
            let ty = ast.types().at(TypeDefId::new(0));
            assert_eq!(ty.lets.len(), 2);
            assert!(ty.defs.is_empty());

            let lets = ast.lets().range(ty.lets).into_iter();
            assert_eq!(
                lets.map(|it| it.name.text(source)).collect::<Vec<_>>(),
                vec!["parent", "member"]
            );
        }

#[test]
fn with_def_members() {
            let source = r#"type team {
  def member = .maintainer | .direct_member;
}
"#;
            let (ast, reporter) = parse(source);
            assert!(reporter.is_clean());

            let ty = ast.types().at(TypeDefId::new(0));
            assert!(ty.lets.is_empty());

            assert_eq!(ty.defs.len(), 1);
            let def = ast.defs().range(ty.defs).into_iter().next().unwrap();
            assert_eq!(def.name.text(source), "member");
        }

#[test]
fn with_mixed_members() {
            let source = r#"type repository {
  let organization = organization;
  let reader = user | team;

  def push = .writer | .organization.owner;
  def read = .clone;
}
"#;
            let (ast, reporter) = parse(source);
            assert!(reporter.is_clean());

            let ty = ast.types().at(TypeDefId::new(0));

            assert_eq!(ty.lets.len(), 2);
            assert_eq!(
                ast.lets()
                    .range(ty.lets).into_iter()
                    .map(|it| it.name.text(source))
                    .collect::<Vec<_>>(),
                vec!["organization", "reader"],
            );

            assert_eq!(ty.defs.len(), 2);
            assert_eq!(
                ast.defs()
                    .range(ty.defs).into_iter()
                    .map(|it| it.name.text(source))
                    .collect::<Vec<_>>(),
                vec!["push", "read"],
            );
        }

#[test]
fn simple_type_ref() {
            let source = r#"type t {
  let x = user;
}
"#;
            let (ast, reporter) = parse(source);
            assert!(reporter.is_clean());

            let m = ast.lets().at(LetMemberId::new(0));
            assert_eq!(m.name.text(source), "x");

            let expr = ast.exprs().at(m.expr);
            assert!(matches!(expr.term, ExprTerm::TypeRef(s) if s.span.text(source) == "user"));
        }

#[test]
fn union_expr() {
            let source = r#"type t {
  let x = user | team;
}
"#;
            let (ast, reporter) = parse(source);
            assert!(reporter.is_clean());

            let let_def = ast.lets().at(LetMemberId::new(0));
            let expr = ast.exprs().at(let_def.expr);

            let ExprTerm::Binary(expr) = expr.term else {
                panic!("expected Binary, got {:?}", expr.term);
            };

            assert_eq!(expr.op, BinaryOp::Union);
            assert!(matches!(
                ast.exprs().at(expr.lhs).term,
                ExprTerm::TypeRef(_)
            ));
            assert!(matches!(
                ast.exprs().at(expr.rhs).term,
                ExprTerm::TypeRef(_)
            ));
        }

#[test]
fn type_def_userset_type_ref() {
            let source = r#"type t {
  let x = team::member;
}
"#;
            let (ast, reporter) = parse(source);
            assert!(reporter.is_clean());

            let let_def = ast.lets().at(LetMemberId::new(0));
            let expr = ast.exprs().at(let_def.expr);
            let ExprTerm::UsersetTypeRef(expr) = expr.term else {
                panic!("expected UsersetTypeRef, got {:?}", expr.term);
            };

            assert_eq!(expr.ty.text(source), "team");
            assert_eq!(expr.member.text(source), "member");
        }

#[test]
fn type_def_self_ref() {
            let source = r#"type t {
  def x = .reader;
}
"#;
            let (ast, reporter) = parse(source);
            assert!(reporter.is_clean());

            let def = ast.defs().at(DefMemberId::new(0));
            assert_eq!(def.name.text(source), "x");

            let expr = ast.exprs().at(def.expr);
            assert!(matches!(expr.term, ExprTerm::SelfRef(s) if s.span.text(source) == "reader"));
        }

#[test]
fn type_def_traversal() {
            let source = r#"type t {
  def x = .organization.owner;
}
"#;
            let (ast, reporter) = parse(source);
            assert!(reporter.is_clean());

            let def = ast.defs().at(DefMemberId::new(0));
            let expr = ast.exprs().at(def.expr);
            let ExprTerm::Traversal(expr) = expr.term else {
                panic!("expected Traversal, got {:?}", expr.term);
            };

            assert_eq!(expr.relation.text(source), "organization");
            assert_eq!(expr.permission.text(source), "owner");
        }

#[test]
fn chained_union() {
            let source = r#"type t {
  def x = .writer | .maintainer | .admin;
}
"#;
            let (ast, reporter) = parse(source);
            assert!(reporter.is_clean());

            // Union is left-associative, so: ((.writer | .maintainer) | .admin)
            let def = ast.defs().at(DefMemberId::new(0));
            let expr = ast.exprs().at(def.expr);

            let ExprTerm::Binary(expr) = expr.term else {
                panic!("expected Binary, got {:?}", expr.term);
            };

            assert_eq!(expr.op, BinaryOp::Union);
            // rhs is .admin
            assert!(matches!(
                ast.exprs().at(expr.rhs).term,
                ExprTerm::SelfRef(_)
            ));
            // lhs is (.writer | .maintainer)
            assert!(matches!(
                ast.exprs().at(expr.lhs).term,
                ExprTerm::Binary(expr) if expr.op == BinaryOp::Union,
            ));
        }

#[test]
fn basic() {
        let source = r#"test "basic" {
  relations {}
}
"#;
        let (ast, reporter) = parse(source);
        assert!(reporter.is_clean());

        assert_eq!(ast.tests().len(), 1);
        let t = ast.tests().at(TestDefId::new(0));
        assert_eq!(t.name.text(source), r#""basic""#);
        assert!(t.relations.is_empty());
        assert!(t.asserts.is_empty());
    }

#[test]
fn test_def_inline_relation() {
        let source = r#"test "t" {
  relations {
    org("acme") .owner: user("alice");
  }
}
"#;
        let (ast, reporter) = parse(source);
        assert!(reporter.is_clean());

        assert_eq!(ast.relations().len(), 1);
        let rel = ast.relations().at(RelationId::new(0));
        assert_eq!(rel.resource.ty().text(source), "org");
        assert_eq!(rel.resource.ident().text(source), r#""acme""#);
        assert_eq!(rel.relation.text(source), "owner");

        let subj = ast.subjects().at(rel.subject);
        assert_eq!(subj.instance.ty().text(source), "user");
        assert_eq!(subj.instance.ident().text(source), r#""alice""#);
        assert!(subj.permission.is_none());
    }

#[test]
fn block_relations() {
        let source = r#"test "t" {
  relations {
    org("acme") .{
      .owner: user("alice");
      .member: user("bob");
    };
  }
}
"#;
        let (ast, reporter) = parse(source);
        assert!(reporter.is_clean());

        assert_eq!(ast.relations().len(), 2);
        assert_eq!(
            ast.relations()
                .at(RelationId::new(0))
                .relation
                .text(source),
            "owner"
        );
        assert_eq!(
            ast.relations()
                .at(RelationId::new(1))
                .relation
                .text(source),
            "member"
        );
    }

#[test]
fn subject_with_permission() {
        let source = r#"test "t" {
  relations {
    repo("x") .writer: team("dev")::member;
  }
}
"#;
        let (ast, reporter) = parse(source);
        assert!(reporter.is_clean());

        let rel = ast.relations().at(RelationId::new(0));
        let subj = ast.subjects().at(rel.subject);

        assert_eq!(subj.instance.ty().text(source), "team");
        assert!(subj.permission.is_some());
        assert_eq!(subj.permission.unwrap().text(source), "member");
    }

#[test]
fn with_assertions() {
        let source = r#"test "t" {
  relations {
    org("a") .owner: user("alice");
  }

  assert( org("a").manage( user("alice") ) );
  assert_not( org("a").delete( user("bob") ) );
}
"#;
        let (ast, reporter) = parse(source);
        assert!(reporter.is_clean());

        assert_eq!(ast.asserts().len(), 2);

        let a0 = ast.asserts().at(AssertId::new(0));
        assert_eq!(a0.kind, AssertionKind::Assert);
        assert_eq!(a0.permission.text(source), "manage");

        let a1 = ast.asserts().at(AssertId::new(1));
        assert_eq!(a1.kind, AssertionKind::AssertNot);
        assert_eq!(a1.permission.text(source), "delete");
    }

#[test]
fn types_and_tests_together() {
        let source = r#"type user {}

type org {
  let owner = user;
}

test "flow" {
  relations {
    org("a") .owner: user("x");
  }

  assert( org("a").owner( user("x") ) );
}
"#;
        let (ast, reporter) = parse(source);
        assert!(reporter.is_clean());

        assert_eq!(ast.types().len(), 2);
        assert_eq!(ast.tests().len(), 1);
    }
