//! What can be decided about a shader before the graphics driver sees it.

use crate::resources::ResError;
use vstd::prelude::*;
use vstd::string::StringExecFns;
use vstd::string::StrSliceExecFns;

verus! {

/// Why a shader or a program could not be made.
#[derive(Debug)]
pub enum ShaderError {
    /// The source of `name` could not be loaded.
    ResourceLoad { name: String, source: ResError },
    /// The name of the resource ends in no extension that names a stage.
    CanNotDetermineShaderTypeForResource { name: String },
    /// The driver refused to compile `name`, and said `message`.
    CompileError { name: String, message: String },
    /// The driver refused to link `name`, and said `message`.
    LinkError { name: String, message: String },
}

/// The stage of the pipeline that a shader runs in.
#[derive(Clone, Copy, Debug, PartialEq, Eq, Structural)]
pub enum ShaderKind {
    Vertex,
    Fragment,
}

/// `s` ends in `suffix`.
pub open spec fn ends_with(s: Seq<char>, suffix: Seq<char>) -> bool {
    s.len() >= suffix.len() && s.subrange(s.len() - suffix.len(), s.len() as int) == suffix
}

/// The stage that the resource called `name` is written for, by its extension.
pub open spec fn kind_of_name(name: Seq<char>) -> Option<ShaderKind> {
    if ends_with(name, ".vert"@) {
        Some(ShaderKind::Vertex)
    } else if ends_with(name, ".frag"@) {
        Some(ShaderKind::Fragment)
    } else {
        None
    }
}

/// Whether `name` ends in `suffix`.
pub fn has_suffix(name: &str, suffix: &str) -> (r: bool)
    ensures
        r == ends_with(name@, suffix@),
{
    let n: usize = name.unicode_len();
    let m: usize = suffix.unicode_len();
    if m > n {
        return false;
    }
    let offset: usize = n - m;
    let mut j: usize = 0;
    while j < m
        invariant
            n == name@.len(),
            m == suffix@.len(),
            offset == n - m,
            j <= m,
            forall|k: int| 0 <= k < j ==> name@[offset + k] == suffix@[k],
        decreases m - j,
    {
        if name.get_char(offset + j) != suffix.get_char(j) {
            assert(name@.subrange(n - m, n as int)[j as int] != suffix@[j as int]);
            return false;
        }
        j += 1;
    }
    assert(name@.subrange(n - m, n as int) =~= suffix@);
    true
}

impl ShaderKind {
    /// The stage of the shader resource `name`: a vertex shader where the
    /// name ends in `.vert`, a fragment shader where it ends in `.frag`, and
    /// otherwise an error that carries the name.
    pub fn from_res(name: &str) -> (r: Result<ShaderKind, ShaderError>)
        ensures
            match kind_of_name(name@) {
                Some(kind) => r == Ok::<ShaderKind, ShaderError>(kind),
                None => r matches Err(
                    ShaderError::CanNotDetermineShaderTypeForResource { name: n },
                ) && n@ == name@,
            },
    {
        if has_suffix(name, ".vert") {
            Ok(ShaderKind::Vertex)
        } else if has_suffix(name, ".frag") {
            Ok(ShaderKind::Fragment)
        } else {
            Err(ShaderError::CanNotDetermineShaderTypeForResource { name: name.to_owned() })
        }
    }
}

/// The two shader resources that make up the program called `name`: its
/// vertex stage and its fragment stage, in this order.
pub fn program_stages(name: &str) -> (stages: (String, String))
    ensures
        stages.0@ == name@ + ".vert"@,
        stages.1@ == name@ + ".frag"@,
{
    (String::from_str(name).concat(".vert"), String::from_str(name).concat(".frag"))
}

/// Every stage of a program is a resource whose kind can be told.
pub proof fn lemma_program_stages_have_kinds(name: Seq<char>)
    ensures
        kind_of_name(name + ".vert"@) == Some(ShaderKind::Vertex),
        kind_of_name(name + ".frag"@) == Some(ShaderKind::Fragment),
{
    reveal_strlit(".vert");
    reveal_strlit(".frag");
    let v = name + ".vert"@;
    let f = name + ".frag"@;
    assert(v.subrange(v.len() - 5, v.len() as int) =~= ".vert"@);
    assert(f.subrange(f.len() - 5, f.len() as int) =~= ".frag"@);
    assert(f.subrange(f.len() - 5, f.len() as int)[1] == 'f');
    assert(".vert"@[1] == 'v');
}

} // verus!
