//! Building one GPU program from its source units.
//!
//! Compiling and linking are performed by the GPU driver outside the
//! library; what the driver reported for each source unit and for the link
//! step comes back in as plain values. The library's part is the build
//! decision itself: exactly when an attempt yields a usable program, and
//! which structured error identifies the first failure otherwise. No partial
//! program ever escapes a failed attempt.

use vstd::prelude::*;

verus! {

/// The kind of GPU stage a source unit is compiled for.
#[derive(Clone, Copy, Debug, PartialEq, Eq, Structural)]
pub enum StageKind {
    Vertex,
    Fragment,
    Compute,
}

/// One source unit of a program: the stage kind it is compiled for and the
/// canonical path of its source text.
#[derive(Clone, Debug)]
pub struct SourceUnit {
    pub stage: StageKind,
    pub path: String,
}

/// The ordered source units that one program is built from.
pub type ProgramSpec = Vec<SourceUnit>;

/// What the driver reported for one source unit: whether it compiled, and
/// the compiler's message when it did not. A source file that could not be
/// read at all is reported the same way, with the read error as message.
#[derive(Clone, Debug)]
pub struct UnitOutcome {
    pub compiled: bool,
    pub log: String,
}

/// What the driver reported for the link step.
#[derive(Clone, Debug)]
pub struct LinkOutcome {
    pub linked: bool,
    pub log: String,
}

/// A failed build attempt: either one source unit failed to compile, or all
/// units compiled and linking them failed. Either way the whole attempted
/// program is discarded.
#[derive(Clone, Debug)]
pub enum BuildError {
    /// The named unit failed; carries that unit's canonical source path and
    /// the compiler's message.
    Compile { unit: String, message: String },
    /// All units compiled but the link step failed; carries the linker's
    /// message.
    Link { message: String },
}

/// Every source unit of the attempt compiled.
pub open spec fn all_compiled(outcomes: Seq<UnitOutcome>) -> bool {
    forall|i: int| 0 <= i < outcomes.len() ==> outcomes[i].compiled
}

/// `i` is the first unit of the attempt that failed to compile.
pub open spec fn first_failure(outcomes: Seq<UnitOutcome>, i: int) -> bool {
    &&& 0 <= i < outcomes.len()
    &&& !outcomes[i].compiled
    &&& forall|j: int| 0 <= j < i ==> outcomes[j].compiled
}

/// Decide the outcome of one build attempt.
///
/// `object` is the program object the attempt was assembled into; `spec`
/// lists the source units, `outcomes` what the driver reported for each in
/// order, and `link` what it reported for the link step. The attempt
/// succeeds exactly when every unit compiled and the link step succeeded,
/// and then yields `object`. Otherwise the error identifies the first
/// failing unit by its path together with the compiler's message, or, when
/// only linking failed, carries the linker's message.
pub fn create_program(
    object: u32,
    spec: &ProgramSpec,
    outcomes: &Vec<UnitOutcome>,
    link: &LinkOutcome,
) -> (r: Result<u32, BuildError>)
    requires
        outcomes@.len() == spec@.len(),
    ensures
        r is Ok <==> all_compiled(outcomes@) && link.linked,
        all_compiled(outcomes@) && link.linked ==> r == Ok::<u32, BuildError>(object),
        forall|i: int|
            first_failure(outcomes@, i) ==> r == Err::<u32, BuildError>(
                BuildError::Compile { unit: spec@[i].path, message: outcomes@[i].log },
            ),
        all_compiled(outcomes@) && !link.linked ==> r == Err::<u32, BuildError>(
            BuildError::Link { message: link.log },
        ),
{
    let n = outcomes.len();
    let mut i: usize = 0;
    while i < n
        invariant
            n == outcomes@.len(),
            outcomes@.len() == spec@.len(),
            0 <= i <= n,
            forall|j: int| 0 <= j < i ==> outcomes@[j].compiled,
        decreases n - i,
    {
        if !outcomes[i].compiled {
            return Err(BuildError::Compile {
                unit: spec[i].path.clone(),
                message: outcomes[i].log.clone(),
            });
        }
        i += 1;
    }
    if !link.linked {
        return Err(BuildError::Link { message: link.log.clone() });
    }
    Ok(object)
}

} // verus!
