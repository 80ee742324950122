//! Command-line handling for holon servers.

use vstd::prelude::*;

use crate::text::str_eq;
use crate::transport::DEFAULT_URI;

verus! {

/// The listen URI that `args[i..]` select: the value after the first
/// `--listen` or `--port` that has a value after it (a port `P` selects
/// `tcp://:P`), or `DEFAULT_URI` when there is none.
pub open spec fn flags_uri_from(args: Seq<Seq<char>>, i: int) -> Seq<char>
    decreases args.len() - i,
{
    if i < 0 || i >= args.len() {
        DEFAULT_URI@
    } else if args[i] == "--listen"@ && i + 1 < args.len() {
        args[i + 1]
    } else if args[i] == "--port"@ && i + 1 < args.len() {
        "tcp://:"@ + args[i + 1]
    } else {
        flags_uri_from(args, i + 1)
    }
}

/// The listen URI that the command line `args` selects.
pub open spec fn flags_uri(args: Seq<Seq<char>>) -> Seq<char> {
    flags_uri_from(args, 0)
}

/// Extract --listen or --port from command-line args.
pub fn parse_flags(args: &[String]) -> (r: String)
    ensures
        r@ == flags_uri(args.deep_view()),
{
    let ghost a = args.deep_view();
    let mut i: usize = 0;
    while i < args.len()
        invariant
            a == args.deep_view(),
            i <= args.len(),
            flags_uri(a) == flags_uri_from(a, i as int),
        decreases args.len() - i,
    {
        assert(a[i as int] == args[i as int]@);
        if str_eq(args[i].as_str(), "--listen") && i + 1 < args.len() {
            assert(a[i + 1] == args[i + 1]@);
            return args[i + 1].clone();
        }
        if str_eq(args[i].as_str(), "--port") && i + 1 < args.len() {
            assert(a[i + 1] == args[i + 1]@);
            let mut r = "tcp://:".to_owned();
            r.append(args[i + 1].as_str());
            return r;
        }
        i = i + 1;
    }
    DEFAULT_URI.to_owned()
}

} // verus!
