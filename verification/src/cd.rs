//! The deciding half of the directory-change handler: the path argument
//! with its default, and the success message.  The system call that moves
//! the process stays outside the library.

use vstd::prelude::*;
use crate::args::CommandArgs;

verus! {

/// Takes the path argument off the cursor; a missing argument defaults to
/// the current directory.
pub fn path_argument(args: &mut CommandArgs) -> (r: String)
    requires
        old(args).wf(),
    ensures
        final(args).wf(),
        final(args).items_view() == old(args).items_view(),
        old(args).taken() < old(args).items_view().len() ==> {
            &&& r@ == old(args).items_view()[old(args).taken()]
            &&& final(args).taken() == old(args).taken() + 1
        },
        old(args).taken() >= old(args).items_view().len() ==> {
            &&& r@ == "."@
            &&& final(args).taken() == old(args).taken()
        },
{
    match args.next() {
        Some(p) => p,
        None => String::from_str("."),
    }
}

/// The success line the operator reads after the directory changed.
pub fn success_message(path: &str) -> (r: String)
    ensures
        r@ == "Changed to "@ + path@,
{
    let mut s = String::from_str("Changed to ");
    s.append(path);
    s
}

} // verus!
