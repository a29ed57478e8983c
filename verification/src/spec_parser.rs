//! The spec parser: normalizing the raw build-time argument into an ordered
//! list of pattern strings.
//!
//! The bundler takes exactly one argument, which must be either a single
//! string or an array of strings. Anything else is a configuration error:
//! a wrong count is an arity error, a wrong shape of the single argument a
//! shape error. An empty array is legal and yields an empty pattern list.

use vstd::prelude::*;
use crate::error::{Error, ErrorModel};

verus! {

/// One raw build-time argument value, before its shape has been checked.
#[derive(Debug, PartialEq, Eq)]
pub enum Argument {
    /// A string literal.
    Str(String),
    /// An array of argument values.
    List(Vec<Argument>),
    /// Any other kind of value.
    Other,
}

/// One input pattern: either a plain directory path (recursive-walk mode)
/// or a glob pattern containing wildcard characters (glob mode). Immutable
/// once parsed.
///
/// A well-formed configuration supplies non-empty patterns ([`wf`]); the
/// parser deliberately does not reject an empty one — it is not a shape
/// error — and resolution then normalizes it to the build unit's directory
/// itself, which a walk packages like any other directory.
///
/// [`wf`]: PatternSpec::wf
#[derive(Debug, Clone, PartialEq, Eq)]
pub struct PatternSpec {
    pub text: String,
}

impl PatternSpec {
    /// The invariant a well-formed configuration provides: the pattern
    /// string is non-empty.
    pub open spec fn wf(&self) -> bool {
        self.text@.len() > 0
    }
}

impl View for PatternSpec {
    type V = Seq<char>;

    open spec fn view(&self) -> Seq<char> {
        self.text@
    }
}

/// Whether the single argument has an accepted shape: a string, or an
/// array whose elements are all strings.
pub open spec fn shape_ok(a: Argument) -> bool {
    ||| a is Str
    ||| (a is List && forall|i: int| 0 <= i < a->List_0@.len() ==> a->List_0@[i] is Str)
}

/// The pattern list denoted by a well-shaped single argument.
pub open spec fn patterns_of(a: Argument) -> Seq<Seq<char>> {
    if a is Str {
        seq![a->Str_0@]
    } else {
        a->List_0@.map_values(|e: Argument| e->Str_0@)
    }
}

/// The result of parsing a raw argument list: the pattern list in input
/// order, or the configuration error the list deserves.
pub open spec fn parse_result(args: Seq<Argument>) -> Result<Seq<Seq<char>>, ErrorModel> {
    if args.len() != 1 {
        Err(ErrorModel::Arity { count: args.len() as int })
    } else if !shape_ok(args[0]) {
        Err(ErrorModel::Shape)
    } else {
        Ok(patterns_of(args[0]))
    }
}

/// Parses the raw build-time argument list into an ordered sequence of
/// pattern specs, preserving input order, or reports the configuration
/// error: an arity error when there is not exactly one argument, a shape
/// error when the one argument is neither a string nor an array of strings.
pub fn parse_arguments(args: &Vec<Argument>) -> (r: Result<Vec<PatternSpec>, Error>)
    ensures
        match r {
            Ok(pats) => {
                &&& parse_result(args@) matches Ok(m)
                &&& pats@.map_values(|p: PatternSpec| p@) =~= m
            },
            Err(e) => parse_result(args@) == Err::<Seq<Seq<char>>, ErrorModel>(e@),
        },
{
    if args.len() != 1 {
        return Err(Error::ArityError { count: args.len() });
    }
    match &args[0] {
        Argument::Str(s) => {
            let pats = vec![PatternSpec { text: s.clone() }];
            proof {
                assert(pats@.map_values(|p: PatternSpec| p@) =~= patterns_of(args@[0]));
            }
            Ok(pats)
        },
        Argument::List(list) => {
            let mut pats: Vec<PatternSpec> = Vec::new();
            let n = list.len();
            let mut i: usize = 0;
            while i < n
                invariant
                    args@.len() == 1,
                    args@[0] is List,
                    args@[0]->List_0@ == list@,
                    n == list@.len(),
                    i <= n,
                    forall|j: int| 0 <= j < i ==> list@[j] is Str,
                    pats@.len() == i,
                    forall|j: int| 0 <= j < i ==> pats@[j]@ == list@[j]->Str_0@,
                decreases n - i,
            {
                match &list[i] {
                    Argument::Str(s) => {
                        pats.push(PatternSpec { text: s.clone() });
                    },
                    _ => {
                        return Err(Error::ShapeError);
                    },
                }
                i += 1;
            }
            proof {
                assert(shape_ok(args@[0]));
                assert(pats@.map_values(|p: PatternSpec| p@) =~= patterns_of(args@[0]));
            }
            Ok(pats)
        },
        Argument::Other => Err(Error::ShapeError),
    }
}

} // verus!
