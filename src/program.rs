//! Shading stages, the file names derived from a program's logical name, and
//! the assembly of one ready-to-compile program per (name, stage).
use vstd::prelude::*;
use crate::expand::{expand_import, is_directive, kept_from, lemma_plain_lines, lookup, Expansion, ShaderLibrary};
use crate::scan::raw_lines;
use crate::scan::views;
use crate::text::{chars_of, string_of};

verus! {

/// A shading stage.
#[derive(Clone, Copy, Debug, PartialEq, Eq, Structural)]
pub enum ShaderStage {
    Vertex,
    Fragment,
    Compute,
}

/// The file suffix of a stage.
pub open spec fn stage_suffix(stage: ShaderStage) -> Seq<char> {
    match stage {
        ShaderStage::Vertex => seq!['v', 's'],
        ShaderStage::Fragment => seq!['f', 's'],
        ShaderStage::Compute => seq!['c', 'o', 'm', 'p'],
    }
}

/// The relative path of the source of `name` for `stage`: `<name>.<suffix>.glsl`.
pub open spec fn source_path(name: Seq<char>, stage: ShaderStage) -> Seq<char> {
    name + seq!['.'] + stage_suffix(stage) + seq!['.', 'g', 'l', 's', 'l']
}

/// The relative path of the shared vertex program used where a render
/// program has no vertex source of its own.
pub open spec fn fallback_vertex_path() -> Seq<char> {
    source_path(seq!['c', 'o', 'm', 'm', 'o', 'n'], ShaderStage::Vertex)
}

/// `name` with each path separator replaced by an underscore.
pub open spec fn flat_name(name: Seq<char>) -> Seq<char> {
    name.map_values(|c: char| if c == '/' { '_' } else { c })
}

/// The file name of the compiled artifact: `<flat name>_<suffix>.spv`.
pub open spec fn artifact_file_name(name: Seq<char>, stage: ShaderStage) -> Seq<char> {
    flat_name(name) + seq!['_'] + stage_suffix(stage) + seq!['.', 's', 'p', 'v']
}

/// The version declaration that opens every assembled program.
pub open spec fn version_header() -> Seq<char> {
    seq!['#', 'v', 'e', 'r', 's', 'i', 'o', 'n', ' ', '4', '5', '0', '\n']
}

/// Why a program could not be assembled, as values.
pub ghost enum BuildFault {
    MissingMandatoryStage(Seq<char>),
    ImportCycle(Seq<char>),
}

/// An assembled program as values: its text and the imports that were not found.
pub type Assembly = Result<(Seq<char>, Seq<Seq<char>>), BuildFault>;

/// The expansion of the fragment at `path`, from an empty stack.
pub open spec fn resolve_path(lib: Seq<(Seq<char>, Seq<char>)>, path: Seq<char>) -> Expansion {
    expand_import(lib, Seq::empty(), path)
}

/// An expansion with the version header in front.
pub open spec fn with_header(e: Expansion) -> Assembly {
    match e {
        Ok((t, m)) => Ok((version_header() + t, m)),
        Err(n) => Err(BuildFault::ImportCycle(n)),
    }
}

/// The program for (`name`, `stage`): its own source if there is one; for a
/// vertex stage without one, the shared vertex program; otherwise a fatal fault.
pub open spec fn assemble(lib: Seq<(Seq<char>, Seq<char>)>, name: Seq<char>, stage: ShaderStage) -> Assembly {
    let p = source_path(name, stage);
    if lookup(lib, p) is Some {
        with_header(resolve_path(lib, p))
    } else if stage == ShaderStage::Vertex {
        if lookup(lib, fallback_vertex_path()) is Some {
            with_header(resolve_path(lib, fallback_vertex_path()))
        } else {
            Err(BuildFault::MissingMandatoryStage(fallback_vertex_path()))
        }
    } else {
        Err(BuildFault::MissingMandatoryStage(p))
    }
}

/// The views of a sequence of strings.
pub open spec fn string_views(v: Seq<String>) -> Seq<Seq<char>> {
    v.map_values(|s: String| s@)
}

/// Why a program could not be assembled.
#[derive(Debug)]
pub enum BuildError {
    /// The source of a fragment or compute stage, or the shared vertex program, is absent.
    MissingMandatoryStage { path: String },
    /// Expanding the named fragment reached that fragment again.
    ImportCycle { name: String },
}

impl View for BuildError {
    type V = BuildFault;

    open spec fn view(&self) -> BuildFault {
        match self {
            BuildError::MissingMandatoryStage { path } => BuildFault::MissingMandatoryStage(path@),
            BuildError::ImportCycle { name } => BuildFault::ImportCycle(name@),
        }
    }
}

/// A program ready to compile, with the imports that no fragment answered.
#[derive(Debug)]
pub struct ShaderProgram {
    pub text: String,
    pub missing_imports: Vec<String>,
}

impl View for ShaderProgram {
    type V = (Seq<char>, Seq<Seq<char>>);

    open spec fn view(&self) -> (Seq<char>, Seq<Seq<char>>) {
        (self.text@, string_views(self.missing_imports@))
    }
}

/// The strings holding each character vector of `v`.
fn strings_of(v: &Vec<Vec<char>>) -> (r: Vec<String>)
    ensures
        string_views(r@) == views(v@),
{
    let mut r: Vec<String> = Vec::new();
    let mut i: usize = 0;
    while i < v.len()
        invariant
            i <= v@.len(),
            string_views(r@) == views(v@).subrange(0, i as int),
        decreases v@.len() - i,
    {
        let s = string_of(&v[i]);
        proof {
            assert(views(v@)[i as int] == v@[i as int]@);
        }
        let ghost r0 = r@;
        r.push(s);
        assert(string_views(r@) =~= string_views(r0).push(s@));
        assert(views(v@).subrange(0, i + 1) =~= views(v@).subrange(0, i as int).push(s@));
        i = i + 1;
        assert(string_views(r@) =~= views(v@).subrange(0, i as int));
    }
    assert(views(v@).subrange(0, i as int) =~= views(v@));
    r
}

impl ShaderStage {
    /// The file suffix of this stage.
    pub fn suffix(&self) -> (r: String)
        ensures
            r@ == stage_suffix(*self),
    {
        let v = match self {
            ShaderStage::Vertex => vec!['v', 's'],
            ShaderStage::Fragment => vec!['f', 's'],
            ShaderStage::Compute => vec!['c', 'o', 'm', 'p'],
        };
        assert(v@ =~= stage_suffix(*self));
        string_of(&v)
    }
}

/// The relative path of the source of `name` for `stage`.
pub fn source_path_of(name: &str, stage: ShaderStage) -> (r: String)
    ensures
        r@ == source_path(name@, stage),
{
    let mut v = chars_of(name);
    v.push('.');
    let suffix = chars_of(stage.suffix().as_str());
    let mut i: usize = 0;
    let ghost v0 = v@;
    while i < suffix.len()
        invariant
            i <= suffix@.len(),
            v@ == v0 + suffix@.subrange(0, i as int),
        decreases suffix@.len() - i,
    {
        v.push(suffix[i]);
        i = i + 1;
        assert(v@ =~= v0 + suffix@.subrange(0, i as int));
    }
    v.push('.');
    v.push('g');
    v.push('l');
    v.push('s');
    v.push('l');
    assert(v@ =~= source_path(name@, stage));
    string_of(&v)
}

/// The file name of the artifact compiled from `name` for `stage`.
pub fn artifact_file_name_of(name: &str, stage: ShaderStage) -> (r: String)
    ensures
        r@ == artifact_file_name(name@, stage),
{
    let n = chars_of(name);
    let mut v: Vec<char> = Vec::new();
    let mut i: usize = 0;
    while i < n.len()
        invariant
            i <= n@.len(),
            v@ == flat_name(n@.subrange(0, i as int)),
        decreases n@.len() - i,
    {
        if n[i] == '/' {
            v.push('_');
        } else {
            v.push(n[i]);
        }
        i = i + 1;
        assert(v@ =~= flat_name(n@.subrange(0, i as int)));
    }
    assert(n@.subrange(0, i as int) =~= n@);
    v.push('_');
    let suffix = chars_of(stage.suffix().as_str());
    let ghost v0 = v@;
    let mut j: usize = 0;
    while j < suffix.len()
        invariant
            j <= suffix@.len(),
            v@ == v0 + suffix@.subrange(0, j as int),
        decreases suffix@.len() - j,
    {
        v.push(suffix[j]);
        j = j + 1;
        assert(v@ =~= v0 + suffix@.subrange(0, j as int));
    }
    v.push('.');
    v.push('s');
    v.push('p');
    v.push('v');
    assert(v@ =~= artifact_file_name(name@, stage));
    string_of(&v)
}

impl ShaderLibrary {
    /// The expansion of the fragment at `path`: its text with every import
    /// directive replaced by the expansion of the fragments it names.
    pub fn resolve(&self, path: &str) -> (r: Result<ShaderProgram, BuildError>)
        ensures
            match resolve_path(self@, path@) {
                Ok(x) => r is Ok && r->Ok_0@ == x,
                Err(n) => r is Err && r->Err_0@ == BuildFault::ImportCycle(n),
            },
    {
        let name = chars_of(path);
        let mut stack: Vec<Vec<char>> = Vec::new();
        let mut out: Vec<char> = Vec::new();
        let mut missing: Vec<Vec<char>> = Vec::new();
        proof {
            assert(views(stack@) =~= Seq::<Seq<char>>::empty());
            assert(views(missing@) =~= Seq::<Seq<char>>::empty());
        }
        match self.expand_import_into(&mut stack, name, &mut out, &mut missing) {
            Ok(()) => {
                assert(out@ =~= resolve_path(self@, path@)->Ok_0.0);
                assert(views(missing@) =~= resolve_path(self@, path@)->Ok_0.1);
                Ok(ShaderProgram { text: string_of(&out), missing_imports: strings_of(&missing) })
            },
            Err(n) => Err(BuildError::ImportCycle { name: string_of(&n) }),
        }
    }

    /// The program for (`name`, `stage`), opened by the version header.
    pub fn assemble(&self, name: &str, stage: ShaderStage) -> (r: Result<ShaderProgram, BuildError>)
        ensures
            match assemble(self@, name@, stage) {
                Ok(x) => r is Ok && r->Ok_0@ == x,
                Err(f) => r is Err && r->Err_0@ == f,
            },
    {
        let path = source_path_of(name, stage);
        let p = chars_of(path.as_str());
        let chosen = if self.find(&p).is_some() {
            path
        } else if stage == ShaderStage::Vertex {
            let fallback = source_path_of("common", ShaderStage::Vertex);
            proof {
                reveal_strlit("common");
                assert("common"@ =~= seq!['c', 'o', 'm', 'm', 'o', 'n']);
            }
            let f = chars_of(fallback.as_str());
            if self.find(&f).is_some() {
                fallback
            } else {
                return Err(BuildError::MissingMandatoryStage { path: fallback });
            }
        } else {
            return Err(BuildError::MissingMandatoryStage { path });
        };
        match self.resolve(chosen.as_str()) {
            Ok(prog) => {
                let header = vec!['#', 'v', 'e', 'r', 's', 'i', 'o', 'n', ' ', '4', '5', '0', '\n'];
                let body = chars_of(prog.text.as_str());
                let mut all = header;
                let mut i: usize = 0;
                assert(all@ =~= version_header());
                while i < body.len()
                    invariant
                        i <= body@.len(),
                        all@ == version_header() + body@.subrange(0, i as int),
                    decreases body@.len() - i,
                {
                    all.push(body[i]);
                    i = i + 1;
                    assert(all@ =~= version_header() + body@.subrange(0, i as int));
                }
                assert(body@.subrange(0, i as int) =~= body@);
                Ok(ShaderProgram { text: string_of(&all), missing_imports: prog.missing_imports })
            },
            Err(e) => Err(e),
        }
    }
}

} // verus!

verus! {

/// A source without import directives assembles to the version header
/// followed by its comment-free lines in their order, with no import missing.
pub proof fn lemma_plain_source(
    lib: Seq<(Seq<char>, Seq<char>)>,
    name: Seq<char>,
    stage: ShaderStage,
    t: Seq<char>,
)
    requires
        lookup(lib, source_path(name, stage)) == Some(t),
        forall|i: int|
            0 <= i < raw_lines(t).len() ==> !is_directive(#[trigger] raw_lines(t)[i]),
    ensures
        assemble(lib, name, stage) == Ok::<(Seq<char>, Seq<Seq<char>>), BuildFault>(
            (version_header() + kept_from(raw_lines(t), 0), Seq::empty()),
        ),
{
    let p = source_path(name, stage);
    lemma_plain_lines(lib, seq![p], raw_lines(t), 0);
    assert(Seq::<Seq<char>>::empty().push(p) == seq![p]);
}

/// A render program without a vertex source of its own gets exactly the
/// shared vertex program: its vertex assembly is that of the shared program.
pub proof fn lemma_vertex_fallback_exact(lib: Seq<(Seq<char>, Seq<char>)>, name: Seq<char>)
    requires
        lookup(lib, source_path(name, ShaderStage::Vertex)) is None,
    ensures
        assemble(lib, name, ShaderStage::Vertex) == assemble(
            lib,
            seq!['c', 'o', 'm', 'm', 'o', 'n'],
            ShaderStage::Vertex,
        ),
{
}

} // verus!
