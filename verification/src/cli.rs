//! The shapes of an invocation.

use crate::text::{chars_of, starts_with, texts};
use vstd::prelude::*;
use vstd::string::StrSliceExecFns;
use vstd::string::StringExecFns;

verus! {

/// What the arguments ask for.
#[derive(Debug)]
pub enum Invocation {
    /// Print the manifest address of the video at `url`.
    Print { url: String },
    /// Hand the video at `url` to the executor named `executor`.
    Named { executor: String, url: String },
    /// The arguments have no accepted shape.
    Usage,
}

/// An `Invocation` as mathematical values.
pub enum InvocationView {
    Print { url: Seq<char> },
    Named { executor: Seq<char>, url: Seq<char> },
    Usage,
}

impl View for Invocation {
    type V = InvocationView;

    open spec fn view(&self) -> InvocationView {
        match self {
            Invocation::Print { url } => InvocationView::Print { url: url@ },
            Invocation::Named { executor, url } => InvocationView::Named {
                executor: executor@,
                url: url@,
            },
            Invocation::Usage => InvocationView::Usage,
        }
    }
}

/// The argument starts with two hyphens.
pub open spec fn is_flag(arg: Seq<char>) -> bool {
    arg.len() >= 2 && arg[0] == '-' && arg[1] == '-'
}

/// What the arguments after the program's name ask for. One argument is the
/// URL to print for. Of two, the one that starts with two hyphens names the
/// executor, whichever comes first, and the other is the URL; where both
/// start so, the second names the executor. Anything else is a wrong use.
pub open spec fn invocation_of(args: Seq<Seq<char>>) -> InvocationView {
    if args.len() == 1 {
        InvocationView::Print { url: args[0] }
    } else if args.len() == 2 {
        if is_flag(args[1]) {
            InvocationView::Named { executor: args[1].skip(2), url: args[0] }
        } else if is_flag(args[0]) {
            InvocationView::Named { executor: args[0].skip(2), url: args[1] }
        } else {
            InvocationView::Usage
        }
    } else {
        InvocationView::Usage
    }
}

/// The line that tells how the program is used.
pub open spec fn usage_text(program: Seq<char>) -> Seq<char> {
    "USAGE: "@ + program + " [--<executor>] <URL>"@
}

/// No argument and more than two arguments are a wrong use, and so are two
/// arguments of which none starts with two hyphens.
pub proof fn lemma_wrong_shapes_are_usage(args: Seq<Seq<char>>)
    requires
        args.len() == 0 || args.len() > 2 || (args.len() == 2 && !is_flag(args[0]) && !is_flag(
            args[1],
        )),
    ensures
        invocation_of(args) == InvocationView::Usage,
{
}

/// The name that a flag carries, if `arg` is a flag.
fn flag_name(arg: &str) -> (r: Option<String>)
    ensures
        match r {
            Some(name) => is_flag(arg@) && name@ == arg@.skip(2),
            None => !is_flag(arg@),
        },
{
    let chars = chars_of(arg);
    if chars.len() >= 2 && chars[0] == '-' && chars[1] == '-' {
        let name = arg.substring_char(2, chars.len());
        assert(arg@.subrange(2, chars@.len() as int) =~= arg@.skip(2));
        Some(String::from_str(name))
    } else {
        None
    }
}

/// What the arguments after the program's name ask for.
pub fn parse_args(args: &Vec<String>) -> (r: Invocation)
    ensures
        r@ == invocation_of(texts(args@)),
{
    if args.len() == 1 {
        Invocation::Print { url: args[0].clone() }
    } else if args.len() == 2 {
        match flag_name(args[1].as_str()) {
            Some(executor) => Invocation::Named { executor, url: args[0].clone() },
            None => match flag_name(args[0].as_str()) {
                Some(executor) => Invocation::Named { executor, url: args[1].clone() },
                None => Invocation::Usage,
            },
        }
    } else {
        Invocation::Usage
    }
}

/// The line that tells how the program `program` is used.
pub fn usage(program: &str) -> (r: String)
    ensures
        r@ == usage_text(program@),
{
    let mut out = String::from_str("USAGE: ");
    out.append(program);
    out.append(" [--<executor>] <URL>");
    out
}

} // verus!
