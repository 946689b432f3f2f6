//! The compiler pipeline: source files, parsing, analysis and export.
use crate::ast::Ast;
use crate::diagnostic::{any_error, lemma_any_error_concat, Reporter};
use crate::semantic::analysis_report;
use crate::semantic::declare::views;
use crate::export::{exported_schema, Exporter};
use crate::grammar::{is_program, program_tree};
use crate::semantic::declare::declare_pass;
use crate::semantic::schema::schema_of;
use crate::semantic::verify::verify_pass;
use crate::ir;
use crate::parser::{Parser, MAX_SOURCE_LEN};
use crate::semantic::analyze;
use crate::semantic::schema::Schema;
use crate::vfs::{FileId, FileRef, Vfs};
use vstd::prelude::*;
use vstd::string::StringSliceAdditionalSpecFns;

verus! {

/// `ast` is a well-formed tree of the text `src`, the tree of the program when `src`
/// is one, and both analysis passes accept it.
pub open spec fn accepted(ast: Ast, src: Seq<u8>) -> bool {
    &&& (is_program(src) ==> program_tree(ast, src))
    &&& ast.wf()
    &&& ast.ordered()
    &&& ast.fits(src)
    &&& declare_pass(ast, src).1.len() == 0
    &&& verify_pass(ast, src, declare_pass(ast, src).0).len() == 0
}

/// `src` is a program, and both analysis passes accept every tree of it that has the
/// shape the grammar gives (see [`crate::grammar::program_tree`]).
pub open spec fn accepted_program(src: Seq<u8>) -> bool {
    &&& is_program(src)
    &&& forall|ast: Ast| #[trigger] program_tree(ast, src) && ast.wf() && ast.ordered() && ast.fits(src)
        ==> accepted(ast, src)
}

/// Holds the source files of a compilation and runs the pipeline on them: parsing,
/// semantic analysis and export.
pub struct Compiler {
    pub(crate) vfs: Vfs,
}

impl Compiler {
    /// The file system is well formed.
    pub open(crate) spec fn wf(&self) -> bool {
        self.vfs.wf()
    }

    /// The file with id `k`, if there is one, is short enough to parse.
    pub open(crate) spec fn parsable(&self, k: u32) -> bool {
        self.vfs.files().contains_key(k) ==> self.source_bytes(k).len() <= MAX_SOURCE_LEN
    }

    /// The files.
    pub open(crate) spec fn files(&self) -> Vfs {
        self.vfs
    }

    /// The bytes of the file with id `k`.
    pub open(crate) spec fn source_bytes(&self, k: u32) -> Seq<u8> {
        vstd::utf8::encode_utf8(self.vfs.files()[k].source_view())
    }

    /// The number of files added so far.
    pub open(crate) spec fn file_count(&self) -> u32 {
        self.vfs.next()
    }

    pub fn new() -> (c: Compiler)
        ensures
            c.wf(),
            c.file_count() == 0,
    {
        Compiler { vfs: Vfs::new() }
    }

    /// Adds a source file and returns its id, one more than the last.
    pub fn add_file(&mut self, path: String, source: String) -> (id: FileId)
        requires
            old(self).wf(),
            old(self).file_count() < u32::MAX,
        ensures
            final(self).wf(),
            id.idx() == old(self).file_count(),
            final(self).file_count() == old(self).file_count() + 1,
            crate::vfs::added(old(self).files(), final(self).files(), path@, source@),
    {
        self.vfs.add(path, source)
    }

    /// Parses a file, handing what the parser reports on to `reporter`; the tree is
    /// returned only if the reporter holds no error after. A file whose text is a
    /// program is parsed without a report, so its tree is returned unless the reporter
    /// held an error already; for any other text an error is reported and no tree is
    /// returned.
    fn parse_ast<'f, R: Reporter>(&self, file: FileRef<'f>, reporter: &mut R) -> (r: Option<Ast>)
        requires
            file.source_of().spec_bytes().len() <= MAX_SOURCE_LEN,
        ensures
            r is Some ==> !any_error((*final(reporter)).reported()),
            r matches Some(ast) ==> ast.wf() && ast.ordered() && ast.fits(file.source_of().spec_bytes())
                && ast.node_count() <= 2 * file.source_of().spec_bytes().len(),
            is_program(file.source_of().spec_bytes()) ==> (*final(reporter)).reported() == (*old(reporter)).reported(),
            is_program(file.source_of().spec_bytes()) && !any_error((*old(reporter)).reported()) ==> r is Some,
            is_program(file.source_of().spec_bytes()) ==> (r matches Some(ast) ==> program_tree(ast, file.source_of().spec_bytes())),
            !is_program(file.source_of().spec_bytes()) ==> r is None && any_error((*final(reporter)).reported()),
    {
        let ghost before = reporter.reported();
        let (ast, buffer) = Parser::new(file, crate::testing::Reporter::new()).parse_and_report();
        let ghost parsed = buffer.diagnostics@;
        crate::diagnostic::forward(buffer.diagnostics, reporter);
        proof {
            lemma_any_error_concat(before, parsed);
            if is_program(file.source_of().spec_bytes()) {
                assert(parsed =~= Seq::<crate::diagnostic::Diagnostic>::empty());
                assert(before + parsed =~= before);
            }
        }
        if reporter.has_errors() {
            return None;
        }
        Some(ast)
    }

    /// Checks the file with id `id`: parses it and analyzes it, reporting what both
    /// find. The schema is returned if the file exists, parsing reported no error and
    /// analysis accepted it; so it is returned for a program that analysis accepts,
    /// unless the reporter held an error already. Text that is not a program gets an
    /// error and no schema; a program gets exactly the diagnostics of analysis.
    pub fn check<R: Reporter>(&self, id: FileId, reporter: &mut R) -> (r: Option<Schema<'_>>)
        requires
            self.wf(),
            self.parsable(id.idx() as u32),
        ensures
            !self.files().files().contains_key(id.idx() as u32) ==> r is None,
            r matches Some(s) ==> s.wf() && exists|ast: Ast| #[trigger] accepted(ast, self.source_bytes(id.idx() as u32))
                && s.model() == schema_of(declare_pass(ast, self.source_bytes(id.idx() as u32)).0),
            self.files().files().contains_key(id.idx() as u32) && !any_error(old(reporter).reported())
                && accepted_program(self.source_bytes(id.idx() as u32)) ==> r is Some,
            !self.files().files().contains_key(id.idx() as u32) ==> (*final(reporter)).reported() == (*old(reporter)).reported(),
            self.files().files().contains_key(id.idx() as u32) && !is_program(self.source_bytes(id.idx() as u32))
                ==> r is None && any_error((*final(reporter)).reported()),
            self.files().files().contains_key(id.idx() as u32) && is_program(self.source_bytes(id.idx() as u32))
                && any_error((*old(reporter)).reported()) ==> r is None && (*final(reporter)).reported() == (*old(reporter)).reported(),
            self.files().files().contains_key(id.idx() as u32) && is_program(self.source_bytes(id.idx() as u32))
                && !any_error((*old(reporter)).reported()) ==> exists|ast: Ast| #[trigger] program_tree(ast, self.source_bytes(id.idx() as u32))
                && ast.wf() && ast.ordered() && ast.fits(self.source_bytes(id.idx() as u32))
                && views((*final(reporter)).reported()) == views((*old(reporter)).reported())
                    + analysis_report(ast, self.source_bytes(id.idx() as u32), (*old(reporter)).reported()),
    {
        let file = self.vfs.get(id)?;
        let ast = self.parse_ast(file, reporter)?;
        proof {
            let src = self.source_bytes(id.idx() as u32);
            assert(file.source_of().spec_bytes() == src);
            if accepted_program(src) {
                assert(program_tree(ast, src));
            }
        }
        let r = analyze(file, &ast, reporter);
        proof {
            if r is Some {
                assert(accepted(ast, self.source_bytes(id.idx() as u32)));
            }
        }
        r
    }

    /// Checks the file with id `id` and exports it: the schema of [`Compiler::check`],
    /// lowered to the intermediate representation. It is returned when
    /// [`Compiler::check`] returns a schema.
    pub fn export_schema<R: Reporter>(&self, id: FileId, reporter: &mut R) -> (r: Option<ir::Schema>)
        requires
            self.wf(),
            self.parsable(id.idx() as u32),
        ensures
            !self.files().files().contains_key(id.idx() as u32) ==> r is None,
            r matches Some(ir) ==> exists|ast: Ast| #[trigger] accepted(ast, self.source_bytes(id.idx() as u32))
                && ir.deep() == exported_schema(ast, self.source_bytes(id.idx() as u32)),
            self.files().files().contains_key(id.idx() as u32) && !any_error(old(reporter).reported())
                && accepted_program(self.source_bytes(id.idx() as u32)) ==> r is Some,
            !self.files().files().contains_key(id.idx() as u32) ==> (*final(reporter)).reported() == (*old(reporter)).reported(),
            self.files().files().contains_key(id.idx() as u32) && !is_program(self.source_bytes(id.idx() as u32))
                ==> r is None && any_error((*final(reporter)).reported()),
            self.files().files().contains_key(id.idx() as u32) && is_program(self.source_bytes(id.idx() as u32))
                && any_error((*old(reporter)).reported()) ==> r is None && (*final(reporter)).reported() == (*old(reporter)).reported(),
            self.files().files().contains_key(id.idx() as u32) && is_program(self.source_bytes(id.idx() as u32))
                && !any_error((*old(reporter)).reported()) ==> exists|ast: Ast| #[trigger] program_tree(ast, self.source_bytes(id.idx() as u32))
                && ast.wf() && ast.ordered() && ast.fits(self.source_bytes(id.idx() as u32))
                && views((*final(reporter)).reported()) == views((*old(reporter)).reported())
                    + analysis_report(ast, self.source_bytes(id.idx() as u32), (*old(reporter)).reported()),
    {
        let file = self.vfs.get(id)?;
        let ast = self.parse_ast(file, reporter)?;
        proof {
            let src = self.source_bytes(id.idx() as u32);
            assert(file.source_of().spec_bytes() == src);
            if accepted_program(src) {
                assert(program_tree(ast, src));
            }
        }
        let _ = analyze(file, &ast, reporter)?;
        let ir = Exporter::new(&ast, file).export_schema();
        proof {
            assert(accepted(ast, self.source_bytes(id.idx() as u32)));
        }
        Some(ir)
    }
}

} // verus!
