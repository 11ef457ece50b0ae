//! Scanning an argument list against a policy table.
//!
//! The first argument is the program's name and is passed over. After
//! it, every argument that starts with a dash is a cluster of switches;
//! the first argument that does not start with one ends the scan, and it
//! and all that follows are left over.

use crate::error::Error;
use crate::policy::{chars_of, ArgType, PolicyTable};
use vstd::prelude::*;

verus! {

/// A switch found among the arguments, with the argument given to it.
#[derive(Debug, Clone, PartialEq, Eq)]
pub struct Opt {
    pub switch: char,
    pub argument: Option<String>,
}

/// An [`Opt`] with its argument as a sequence of characters.
pub struct OptView {
    pub switch: char,
    pub argument: Option<Seq<char>>,
}

impl View for Opt {
    type V = OptView;

    open spec fn view(&self) -> OptView {
        OptView {
            switch: self.switch,
            argument: match self.argument {
                Some(text) => Some(text@),
                None => None,
            },
        }
    }
}

/// What a scan yields: the options in the order in which they were found,
/// and the arguments that were left over.
#[derive(Debug, Clone, PartialEq, Eq)]
pub struct GotOpt {
    pub opts: Vec<Opt>,
    pub rest: Vec<String>,
}

/// A [`GotOpt`] with its texts as sequences of characters.
pub struct GotOptView {
    pub opts: Seq<OptView>,
    pub rest: Seq<Seq<char>>,
}

impl View for GotOpt {
    type V = GotOptView;

    open spec fn view(&self) -> GotOptView {
        GotOptView { opts: opt_views(self.opts@), rest: self.rest.deep_view() }
    }
}

/// The views of `opts`, in order.
pub open spec fn opt_views(opts: Seq<Opt>) -> Seq<OptView> {
    Seq::new(opts.len(), |i: int| opts[i]@)
}

/// The view of what a scan returned.
pub open spec fn outcome(r: Result<GotOpt, Error>) -> Result<GotOptView, Error> {
    match r {
        Ok(got) => Ok(got@),
        Err(e) => Err(e),
    }
}

/// Whether `token` starts with a dash, which makes it a cluster of switches.
pub open spec fn is_cluster(token: Seq<char>) -> bool {
    token.len() > 0 && token[0] == '-'
}

/// Whether a switch of the given policy takes the argument at position
/// `next`: it does where its policy lets it have one and `next` holds an
/// argument that is no cluster.
pub open spec fn takes_argument(args: Seq<Seq<char>>, next: int, policy: ArgType) -> bool {
    policy != ArgType::NoArg && next < args.len() && !is_cluster(args[next])
}

/// `r` with the options `found` put before its own.
pub open spec fn with_options(found: Seq<OptView>, r: Result<GotOptView, Error>) -> Result<
    GotOptView,
    Error,
> {
    match r {
        Ok(got) => Ok(GotOptView { opts: found + got.opts, rest: got.rest }),
        Err(e) => Err(e),
    }
}

/// The scan of `args` from position `at` on, where a new argument is due.
pub open spec fn scan_tokens(args: Seq<Seq<char>>, table: Map<char, ArgType>, at: int) -> Result<
    GotOptView,
    Error,
>
    decreases args.len() - at, 0int, 0int,
{
    if at >= args.len() {
        Ok(GotOptView { opts: Seq::empty(), rest: Seq::empty() })
    } else if !is_cluster(args[at]) {
        Ok(GotOptView { opts: Seq::empty(), rest: args.subrange(at, args.len() as int) })
    } else {
        scan_cluster(args, table, at, 1, at + 1)
    }
}

/// The scan of `args` from the character at position `at` of the cluster
/// `args[token]` on, where `next` is the position of the first argument
/// that has not been consumed.
pub open spec fn scan_cluster(
    args: Seq<Seq<char>>,
    table: Map<char, ArgType>,
    token: int,
    at: int,
    next: int,
) -> Result<GotOptView, Error>
    decreases args.len() - next, 1int, args[token].len() - at,
{
    if at >= args[token].len() {
        scan_tokens(args, table, next)
    } else {
        let switch = args[token][at];
        if !table.contains_key(switch) {
            Err(Error::UnknownSwitch(switch))
        } else if takes_argument(args, next, table[switch]) {
            with_options(
                seq![OptView { switch, argument: Some(args[next]) }],
                scan_cluster(args, table, token, at + 1, next + 1),
            )
        } else if table[switch] == ArgType::RequiresArg {
            Err(Error::MissingArgument(switch))
        } else {
            with_options(
                seq![OptView { switch, argument: None }],
                scan_cluster(args, table, token, at + 1, next),
            )
        }
    }
}

/// The scan of `args`, whose first element is passed over unread.
pub open spec fn scanned(args: Seq<Seq<char>>, table: Map<char, ArgType>) -> Result<
    GotOptView,
    Error,
> {
    scan_tokens(args, table, 1)
}

/// Putting options before a result in two steps is putting them all
/// before it at once.
proof fn lemma_with_options_twice(
    first: Seq<OptView>,
    second: Seq<OptView>,
    r: Result<GotOptView, Error>,
)
    ensures
        with_options(first, with_options(second, r)) == with_options(first + second, r),
{
    if let Ok(got) = r {
        assert(first + (second + got.opts) =~= (first + second) + got.opts);
    }
}

/// The views of a sequence with one more option are the views of the
/// sequence with one more view.
proof fn lemma_opt_views_push(opts: Seq<Opt>, opt: Opt)
    ensures
        opt_views(opts.push(opt)) == opt_views(opts) + seq![opt@],
{
    assert(opt_views(opts.push(opt)) =~= opt_views(opts) + seq![opt@]);
}

/// Where `total` is `here` behind the options `found`, and `here` is
/// `after` behind `opt`, `total` is `after` behind `found` and `opt`.
proof fn lemma_option_found(
    total: Result<GotOptView, Error>,
    found: Seq<Opt>,
    opt: Opt,
    here: Result<GotOptView, Error>,
    after: Result<GotOptView, Error>,
)
    requires
        total == with_options(opt_views(found), here),
        here == with_options(seq![opt@], after),
    ensures
        total == with_options(opt_views(found.push(opt)), after),
{
    lemma_with_options_twice(opt_views(found), seq![opt@], after);
    lemma_opt_views_push(found, opt);
}

/// Whether `opt` is what `table` lets a switch be among `args`: its switch
/// is defined; if it has an argument, its policy is not `NoArg`, and the
/// argument starts with no dash and is one of `args` from the third on;
/// if it has none, its policy is not `RequiresArg`.
pub open spec fn follows_policy(
    opt: OptView,
    args: Seq<Seq<char>>,
    table: Map<char, ArgType>,
) -> bool {
    &&& table.contains_key(opt.switch)
    &&& match opt.argument {
        Some(text) => {
            &&& table[opt.switch] != ArgType::NoArg
            &&& !is_cluster(text)
            &&& exists|k: int| 2 <= k < args.len() && #[trigger] args[k] == text
        },
        None => table[opt.switch] != ArgType::RequiresArg,
    }
}

/// Whether `rest` is what a scan may leave of `args`: a tail of `args`
/// that the first element is not part of, and that is empty or starts
/// with an argument that starts with no dash.
pub open spec fn left_over(rest: Seq<Seq<char>>, args: Seq<Seq<char>>) -> bool {
    &&& rest.len() <= args.len()
    &&& args.len() > 0 ==> rest.len() < args.len()
    &&& rest == args.subrange(args.len() - rest.len(), args.len() as int)
    &&& rest.len() > 0 ==> !is_cluster(rest[0])
}

/// Whether `r`, if it is a success, holds only options that follow their
/// policies, and a rest that a scan may leave.
pub open spec fn sound(
    r: Result<GotOptView, Error>,
    args: Seq<Seq<char>>,
    table: Map<char, ArgType>,
) -> bool {
    r matches Ok(got) ==> {
        &&& forall|k: int|
            0 <= k < got.opts.len() ==> follows_policy(#[trigger] got.opts[k], args, table)
        &&& left_over(got.rest, args)
    }
}

/// A sound result stays sound with one more option in front that
/// follows its policy.
proof fn lemma_sound_with_option(
    opt: OptView,
    r: Result<GotOptView, Error>,
    args: Seq<Seq<char>>,
    table: Map<char, ArgType>,
)
    requires
        sound(r, args, table),
        follows_policy(opt, args, table),
    ensures
        sound(with_options(seq![opt], r), args, table),
{
    if let Ok(got) = r {
        let opts = seq![opt] + got.opts;
        assert forall|k: int| 0 <= k < opts.len() implies follows_policy(
            #[trigger] opts[k],
            args,
            table,
        ) by {
            if k > 0 {
                assert(opts[k] == got.opts[k - 1]);
            }
        }
    }
}

/// The scan from a position where a new argument is due is sound.
proof fn lemma_scan_tokens_sound(args: Seq<Seq<char>>, table: Map<char, ArgType>, at: int)
    requires
        1 <= at,
    ensures
        sound(scan_tokens(args, table, at), args, table),
    decreases args.len() - at, 0int, 0int,
{
    if at >= args.len() {
        assert(Seq::<Seq<char>>::empty() =~= args.subrange(args.len() as int, args.len() as int));
    } else if !is_cluster(args[at]) {
    } else {
        lemma_scan_cluster_sound(args, table, at, 1, at + 1);
    }
}

/// The scan from a position inside a cluster is sound.
proof fn lemma_scan_cluster_sound(
    args: Seq<Seq<char>>,
    table: Map<char, ArgType>,
    token: int,
    at: int,
    next: int,
)
    requires
        1 <= token < next,
    ensures
        sound(scan_cluster(args, table, token, at, next), args, table),
    decreases args.len() - next, 1int, args[token].len() - at,
{
    if at >= args[token].len() {
        lemma_scan_tokens_sound(args, table, next);
    } else {
        let switch = args[token][at];
        if !table.contains_key(switch) {
        } else if takes_argument(args, next, table[switch]) {
            lemma_scan_cluster_sound(args, table, token, at + 1, next + 1);
            lemma_sound_with_option(
                OptView { switch, argument: Some(args[next]) },
                scan_cluster(args, table, token, at + 1, next + 1),
                args,
                table,
            );
        } else if table[switch] == ArgType::RequiresArg {
        } else {
            lemma_scan_cluster_sound(args, table, token, at + 1, next);
            lemma_sound_with_option(
                OptView { switch, argument: None },
                scan_cluster(args, table, token, at + 1, next),
                args,
                table,
            );
        }
    }
}

/// A scan that succeeds finds only options that follow their policies,
/// and leaves over a tail of the arguments that is empty or starts with
/// an argument that starts with no dash.
pub proof fn scanned_is_sound(args: Seq<Seq<char>>, table: Map<char, ArgType>)
    ensures
        sound(scanned(args, table), args, table),
{
    lemma_scan_tokens_sound(args, table, 1);
}

/// Whether `token` starts with a dash.
fn starts_cluster(token: &str) -> (b: bool)
    ensures
        b == is_cluster(token@),
{
    !token.is_empty() && token.get_char(0) == '-'
}

/// Scans `args` against `table`.
///
/// The first argument is passed over. Each following argument that starts
/// with a dash is read as a cluster: every character behind the dash must
/// be a switch of `table`, and a switch whose policy lets it have an
/// argument consumes the next argument unless that one starts with a dash
/// too. The scan ends before the first argument that starts with no dash.
/// An unknown switch, or a switch left without the argument it requires,
/// fails the whole scan.
pub fn scan(args: Vec<String>, table: &PolicyTable) -> (r: Result<GotOpt, Error>)
    ensures
        outcome(r) == scanned(args.deep_view(), table@),
        sound(outcome(r), args.deep_view(), table@),
{
    let ghost tokens = args.deep_view();
    proof {
        scanned_is_sound(tokens, table@);
    }
    let mut pending = args;
    let mut opts: Vec<Opt> = Vec::new();
    let mut at: usize = 1;
    proof {
        if let Ok(got) = scanned(tokens, table@) {
            assert(Seq::<OptView>::empty() + got.opts =~= got.opts);
        }
    }
    while at < pending.len() && starts_cluster(pending[at].as_str())
        invariant
            tokens == args.deep_view(),
            pending.deep_view() == tokens,
            scanned(tokens, table@) == with_options(
                opt_views(opts@),
                scan_tokens(tokens, table@, at as int),
            ),
        decreases pending.len() - at,
    {
        let cluster = chars_of(pending[at].as_str());
        let mut next: usize = at + 1;
        let mut i: usize = 1;
        while i < cluster.len()
            invariant
                tokens == args.deep_view(),
                pending.deep_view() == tokens,
                at < next <= pending.len(),
                cluster@ == tokens[at as int],
                scanned(tokens, table@) == with_options(
                    opt_views(opts@),
                    scan_cluster(tokens, table@, at as int, i as int, next as int),
                ),
            decreases cluster.len() - i,
        {
            let switch = cluster[i];
            let ghost here = scan_cluster(tokens, table@, at as int, i as int, next as int);
            let policy = match table.get(switch) {
                Some(policy) => policy,
                None => {
                    return Err(Error::UnknownSwitch(switch));
                },
            };
            let takes = match policy {
                ArgType::NoArg => false,
                _ => next < pending.len() && !starts_cluster(pending[next].as_str()),
            };
            let argument = if takes {
                let text = pending[next].clone();
                next = next + 1;
                Some(text)
            } else {
                match policy {
                    ArgType::RequiresArg => {
                        return Err(Error::MissingArgument(switch));
                    },
                    _ => None,
                }
            };
            let opt = Opt { switch, argument };
            proof {
                let after = scan_cluster(tokens, table@, at as int, i + 1, next as int);
                lemma_option_found(scanned(tokens, table@), opts@, opt, here, after);
            }
            opts.push(opt);
            i = i + 1;
        }
        at = next;
    }
    let rest = if at < pending.len() {
        pending.split_off(at)
    } else {
        Vec::new()
    };
    let got = GotOpt { opts, rest };
    proof {
        let end = scan_tokens(tokens, table@, at as int);
        assert(got.rest.deep_view() =~= end->Ok_0.rest);
        assert(got@.opts =~= got@.opts + end->Ok_0.opts);
    }
    Ok(got)
}

} // verus!
