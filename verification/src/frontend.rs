//! What the surrounding tool hands the front end, and small helpers of the
//! build pipeline that need no I/O.

use vstd::prelude::*;
use vstd::string::StrSliceExecFns;
use vstd::string::StringExecFns;

use crate::ast::{PrimitiveKind, Type};

verus! {

/// Which intermediate results the pipeline prints along the way.
#[derive(Debug, Clone, Copy, PartialEq, Eq, Structural)]
pub struct CompilerOptions {
    pub verbose: bool,
    pub print_tokens: bool,
    pub print_ast: bool,
    pub print_ir: bool,
    pub print_assembly: bool,
}

/// The command-line arguments the tool takes: the file to compile, an
/// optional output path, and which intermediate results to print.
#[derive(Debug)]
pub struct Args {
    pub file: String,
    pub out: Option<String>,
    pub tokens: bool,
    pub ast: bool,
    pub ir: bool,
    pub assembly: bool,
}

/// The primitive kind a validated type hands the code-generation
/// collaborator; every type of the language is primitive.
pub fn to_primitive_kind(ty: &Type) -> (r: PrimitiveKind)
    ensures
        r == ty.spec_kind(),
{
    match ty {
        Type::Primitive(p) => p.kind,
    }
}

/// The index after the last `.` of the name, if the name has one.
pub open spec fn spec_last_dot(s: Seq<char>) -> Option<int>
    decreases s,
{
    if s.len() == 0 {
        None
    } else if s.last() == '.' {
        Some(s.len() - 1)
    } else {
        spec_last_dot(s.drop_last())
    }
}

/// The default output file for an input file: the suffix after the last
/// `.` replaced by `.exe`, or `.exe` appended where the name has no
/// suffix.
#[verifier::loop_isolation(false)]
pub fn default_output_file(input_file: &str) -> (r: String)
    ensures
        r@ == match spec_last_dot(input_file@) {
            Some(i) => input_file@.subrange(0, i) + ".exe"@,
            None => input_file@ + ".exe"@,
        },
{
    let n = input_file.unicode_len();
    let mut i = n;
    proof {
        assert(input_file@.take(n as int) =~= input_file@);
    }
    loop
        invariant
            i <= n,
            spec_last_dot(input_file@) == spec_last_dot(input_file@.take(i as int)),
        decreases i,
    {
        if i == 0 {
            break ;
        }
        proof {
            assert(input_file@.take(i as int).drop_last() =~= input_file@.take(i as int - 1));
        }
        if input_file.get_char(i - 1) == '.' {
            proof {
                assert(input_file@.take(i as int).last() == input_file@[i as int - 1]);
            }
            let mut out = input_file.substring_char(0, i - 1).to_owned();
            out.append(".exe");
            proof {
                assert(input_file@.take(i as int).len() > 0);
            }
            return out;
        }
        i = i - 1;
    }
    proof {
        assert(input_file@.take(0) =~= Seq::<char>::empty());
        assert(spec_last_dot(Seq::<char>::empty()) is None);
    }
    let mut out = input_file.to_owned();
    out.append(".exe");
    out
}

} // verus!
