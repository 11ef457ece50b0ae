//! What holds of compiling and scanning together.

use crate::error::Error;
use crate::parsed;
use crate::policy::{
    alphabetic, colons_after, compile_from, compiled, definition_end, policy_at, policy_of, ArgType,
};
use crate::scan::{
    is_cluster, scan_cluster, scan_tokens, scanned, scanned_is_sound, takes_argument,
    with_options, GotOptView, OptView,
};
use vstd::prelude::*;

verus! {

/// An empty option string does not compile.
pub proof fn empty_option_string_is_bad()
    ensures
        compiled(Seq::<char>::empty()) is None,
{
}

/// An option string that starts with a character that is not a letter
/// does not compile.
pub proof fn leading_non_letter_is_bad(optstring: Seq<char>)
    requires
        optstring.len() > 0,
        !alphabetic(optstring[0]),
    ensures
        compiled(optstring) is None,
{
}

/// Reading the definitions of `first + second` from a position of
/// `first` on comes to reading on from the end of `first`, where `first`
/// alone can be read to its end and `second` starts with no colon.
proof fn lemma_compile_through(
    first: Seq<char>,
    second: Seq<char>,
    at: int,
    table: Map<char, ArgType>,
)
    requires
        0 <= at <= first.len(),
        second.len() > 0,
        second[0] != ':',
        compile_from(first, at, table) is Some,
    ensures
        compile_from(first + second, at, table) == compile_from(
            first + second,
            first.len() as int,
            compile_from(first, at, table)->0,
        ),
    decreases first.len() - at,
{
    let whole = first + second;
    if at < first.len() {
        assert(whole[at] == first[at]);
        if at + 1 < first.len() {
            assert(whole[at + 1] == first[at + 1]);
        } else {
            assert(whole[at + 1] == second[0]);
        }
        if at + 2 < first.len() {
            assert(whole[at + 2] == first[at + 2]);
        } else if at + 2 == first.len() {
            assert(whole[at + 2] == second[0]);
        }
        assert(colons_after(whole, at) == colons_after(first, at));
        lemma_compile_through(
            first,
            second,
            definition_end(first, at),
            table.insert(first[at], policy_at(first, at)),
        );
    }
}

/// Reading the definitions of `first + second` from a position of
/// `second` on is reading those of `second` alone.
proof fn lemma_compile_shifted(
    first: Seq<char>,
    second: Seq<char>,
    at: int,
    table: Map<char, ArgType>,
)
    requires
        0 <= at,
    ensures
        compile_from(first + second, first.len() + at, table) == compile_from(second, at, table),
    decreases second.len() - at,
{
    let whole = first + second;
    if at < second.len() {
        assert(whole[first.len() + at] == second[at]);
        if at + 1 < second.len() {
            assert(whole[first.len() + at + 1] == second[at + 1]);
        }
        if at + 2 < second.len() {
            assert(whole[first.len() + at + 2] == second[at + 2]);
        }
        assert(colons_after(whole, first.len() + at) == colons_after(second, at));
        lemma_compile_shifted(
            first,
            second,
            definition_end(second, at),
            table.insert(second[at], policy_at(second, at)),
        );
    }
}

/// Option strings compile in turn: where `first` compiles and `second`
/// starts with no colon, `first + second` stands for the table of
/// `first` with the definitions of `second` read into it, and does not
/// compile where those cannot be read.
pub proof fn concatenation_compiles_in_turn(first: Seq<char>, second: Seq<char>)
    requires
        compiled(first) is Some,
        second.len() > 0,
        second[0] != ':',
    ensures
        compiled(first + second) == compile_from(second, 0, compiled(first)->0),
{
    lemma_compile_through(first, second, 0, Map::empty());
    lemma_compile_shifted(first, second, 0, compiled(first)->0);
}

/// A switch followed by `colons` colons.
pub open spec fn definition(switch: char, colons: int) -> Seq<char> {
    seq![switch] + Seq::new(colons as nat, |i: int| ':')
}

/// A later definition replaces an earlier one: an option string that
/// compiles, with one more definition behind it, stands for the same
/// table but for the switch of that definition, which has the policy
/// given there whether or not it was defined before.
pub proof fn later_definition_holds(optstring: Seq<char>, switch: char, colons: int)
    requires
        compiled(optstring) is Some,
        alphabetic(switch),
        switch != ':',
        0 <= colons <= 2,
    ensures
        compiled(optstring + definition(switch, colons)) == Some(
            compiled(optstring)->0.insert(switch, policy_of(colons)),
        ),
{
    let added = definition(switch, colons);
    concatenation_compiles_in_turn(optstring, added);
    assert(added[0] == switch);
    assert(colons_after(added, 0) == colons) by {
        if colons >= 1 {
            assert(added[1] == ':');
        }
        if colons >= 2 {
            assert(added[2] == ':');
        }
    }
    let table = compiled(optstring)->0.insert(switch, policy_of(colons));
    assert(compile_from(added, 1 + colons, table) == Some(table));
}

/// What a scan left over scans to itself, against any table: scanned on
/// from its first element, or put behind any program name and scanned as
/// a whole argument list, it yields no option and is left over whole.
pub proof fn rest_scans_to_itself(
    args: Seq<Seq<char>>,
    table: Map<char, ArgType>,
    program: Seq<char>,
    other: Map<char, ArgType>,
)
    requires
        scanned(args, table) is Ok,
    ensures
        scan_tokens(scanned(args, table)->Ok_0.rest, other, 0) == Ok::<GotOptView, Error>(
            GotOptView { opts: Seq::empty(), rest: scanned(args, table)->Ok_0.rest },
        ),
        scanned(seq![program] + scanned(args, table)->Ok_0.rest, other) == Ok::<GotOptView, Error>(
            GotOptView { opts: Seq::empty(), rest: scanned(args, table)->Ok_0.rest },
        ),
{
    scanned_is_sound(args, table);
    let rest = scanned(args, table)->Ok_0.rest;
    let again = seq![program] + rest;
    if rest.len() > 0 {
        assert(again[1] == rest[0]);
        assert(again.subrange(1, again.len() as int) =~= rest);
        assert(rest.subrange(0, rest.len() as int) =~= rest);
    } else {
        assert(rest =~= Seq::empty());
    }
}

/// Whether the arguments of `opts` stand in `args` in the order of the
/// options, each at a position of its own, from position `from` on and
/// before position `to`.
pub open spec fn drawn_in_order(opts: Seq<OptView>, args: Seq<Seq<char>>, from: int, to: int) -> bool
    decreases opts.len(),
{
    if opts.len() == 0 {
        true
    } else {
        match opts[0].argument {
            None => drawn_in_order(opts.drop_first(), args, from, to),
            Some(text) => exists|k: int|
                from <= k < to && #[trigger] args[k] == text && drawn_in_order(
                    opts.drop_first(),
                    args,
                    k + 1,
                    to,
                ),
        }
    }
}

/// Arguments drawn from a position on are drawn from any earlier one on.
proof fn lemma_drawn_from_earlier(
    opts: Seq<OptView>,
    args: Seq<Seq<char>>,
    earlier: int,
    from: int,
    to: int,
)
    requires
        earlier <= from,
        drawn_in_order(opts, args, from, to),
    ensures
        drawn_in_order(opts, args, earlier, to),
    decreases opts.len(),
{
    if opts.len() > 0 {
        match opts[0].argument {
            None => {
                lemma_drawn_from_earlier(opts.drop_first(), args, earlier, from, to);
            },
            Some(text) => {
                let k = choose|k: int|
                    from <= k < to && #[trigger] args[k] == text && drawn_in_order(
                        opts.drop_first(),
                        args,
                        k + 1,
                        to,
                    );
                assert(earlier <= k < to && args[k] == text);
            },
        }
    }
}

/// Whether `r`, if it is a success, draws the arguments of its options
/// in order from position `from` on and before its rest, which does not
/// start before `from`.
spec fn draws(r: Result<GotOptView, Error>, args: Seq<Seq<char>>, from: int) -> bool {
    r matches Ok(got) ==> {
        &&& from <= args.len() - got.rest.len()
        &&& drawn_in_order(got.opts, args, from, args.len() - got.rest.len())
    }
}

/// With one more option in front, a result draws its arguments from
/// `from` on where that option has no argument and the result draws its
/// own from `from` on, or where that option has the argument at `from`
/// and the result draws its own from behind `from`.
proof fn lemma_draws_with_option(
    opt: OptView,
    r: Result<GotOptView, Error>,
    args: Seq<Seq<char>>,
    from: int,
)
    requires
        match opt.argument {
            None => draws(r, args, from),
            Some(text) => 0 <= from < args.len() && args[from] == text && draws(r, args, from + 1),
        },
    ensures
        draws(with_options(seq![opt], r), args, from),
{
    if let Ok(got) = r {
        assert((seq![opt] + got.opts).drop_first() =~= got.opts);
    }
}

/// The options found from a position where a new argument is due draw
/// their arguments in order from behind that position on and before the
/// rest, which does not start before that position.
proof fn lemma_scan_tokens_draws(args: Seq<Seq<char>>, table: Map<char, ArgType>, at: int)
    requires
        1 <= at <= args.len(),
    ensures
        scan_tokens(args, table, at) matches Ok(got) ==> {
            &&& at <= args.len() - got.rest.len()
            &&& drawn_in_order(got.opts, args, at + 1, args.len() - got.rest.len())
        },
    decreases args.len() - at, 0int, 0int,
{
    if at < args.len() && is_cluster(args[at]) {
        lemma_scan_cluster_draws(args, table, at, 1, at + 1);
    }
}

/// The options found from a position inside a cluster draw their
/// arguments in order from the first argument not yet consumed on.
proof fn lemma_scan_cluster_draws(
    args: Seq<Seq<char>>,
    table: Map<char, ArgType>,
    token: int,
    at: int,
    next: int,
)
    requires
        1 <= token < next <= args.len(),
    ensures
        draws(scan_cluster(args, table, token, at, next), args, next),
    decreases args.len() - next, 1int, args[token].len() - at,
{
    if at >= args[token].len() {
        lemma_scan_tokens_draws(args, table, next);
        if let Ok(got) = scan_tokens(args, table, next) {
            lemma_drawn_from_earlier(
                got.opts,
                args,
                next,
                next + 1,
                args.len() - got.rest.len(),
            );
        }
    } else {
        let switch = args[token][at];
        if !table.contains_key(switch) {
        } else if takes_argument(args, next, table[switch]) {
            lemma_scan_cluster_draws(args, table, token, at + 1, next + 1);
            lemma_draws_with_option(
                OptView { switch, argument: Some(args[next]) },
                scan_cluster(args, table, token, at + 1, next + 1),
                args,
                next,
            );
        } else if table[switch] == ArgType::RequiresArg {
        } else {
            lemma_scan_cluster_draws(args, table, token, at + 1, next);
            lemma_draws_with_option(
                OptView { switch, argument: None },
                scan_cluster(args, table, token, at + 1, next),
                args,
                next,
            );
        }
    }
}

/// No argument is given to two options: the arguments of the options
/// that a scan found stand in the argument list in the order of the
/// options, each at a position of its own, behind the first cluster and
/// before what the scan left over.
pub proof fn arguments_are_drawn_in_order(args: Seq<Seq<char>>, table: Map<char, ArgType>)
    requires
        scanned(args, table) is Ok,
    ensures
        drawn_in_order(
            scanned(args, table)->Ok_0.opts,
            args,
            2,
            args.len() - scanned(args, table)->Ok_0.rest.len(),
        ),
{
    if args.len() >= 1 {
        lemma_scan_tokens_draws(args, table, 1);
    }
}

/// The same of whole calls: what one call left over, put behind any
/// program name, is left over whole by a call with any option string
/// that compiles, and no option is found in it.
pub proof fn rest_parses_to_itself(
    args: Seq<Seq<char>>,
    optstring: Seq<char>,
    program: Seq<char>,
    other: Seq<char>,
)
    requires
        parsed(args, optstring) is Ok,
        compiled(other) is Some,
    ensures
        parsed(seq![program] + parsed(args, optstring)->Ok_0.rest, other) == Ok::<
            GotOptView,
            Error,
        >(GotOptView { opts: Seq::empty(), rest: parsed(args, optstring)->Ok_0.rest }),
{
    rest_scans_to_itself(args, compiled(optstring)->0, program, compiled(other)->0);
}

} // verus!
