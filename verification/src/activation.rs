//! The launch token that the desktop shell hands over.
//!
//! It comes from `--token=<token>`, else from the environment. It is forwarded
//! to portal calls and never stored or logged. An empty token is no token.
use crate::text::{has_prefix, opt_view, same, strip_prefix};
use vstd::prelude::*;

verus! {

/// A text, where it is not empty.
pub open spec fn non_empty(s: Seq<char>) -> Option<Seq<char>> {
    if s.len() == 0 {
        None
    } else {
        Some(s)
    }
}

/// The token that the arguments from `i` on carry: that of the first flag which
/// has a value, where the value is not empty.
pub open spec fn token_from(args: Seq<String>, i: int) -> Option<Seq<char>>
    decreases args.len() - i,
{
    if i < 0 || i >= args.len() {
        None
    } else if has_prefix(args[i]@, "--token="@) {
        non_empty(args[i]@.skip("--token="@.len() as int))
    } else if args[i]@ == "--token"@ && i + 1 < args.len() {
        non_empty(args[i + 1]@)
    } else {
        token_from(args, i + 1)
    }
}

fn keep_non_empty(s: String) -> (r: Option<String>)
    ensures
        opt_view(r) == non_empty(s@),
{
    if s.as_str().is_empty() {
        None
    } else {
        Some(s)
    }
}

/// The token in the arguments: `--token=<value>` or `--token <value>`.
pub fn parse_cli_token(args: Vec<String>) -> (r: Option<String>)
    ensures
        opt_view(r) == token_from(args@, 0),
{
    let n: usize = args.len();
    let mut i: usize = 0;
    while i < n
        invariant
            n == args.len(),
            i <= n,
            token_from(args@, 0) == token_from(args@, i as int),
        decreases n - i,
    {
        let arg = args[i].as_str();
        if let Some(rest) = strip_prefix(arg, "--token=") {
            assert(arg@.skip("--token="@.len() as int) =~= rest@);
            return keep_non_empty(rest);
        }
        if same(arg, "--token") && n - i >= 2 {
            return keep_non_empty(args[i + 1].clone());
        }
        i += 1;
    }
    None
}

/// The token of a launch: the arguments' before the environment's.
pub open spec fn resolved(args: Seq<String>, env: Option<&str>) -> Option<Seq<char>> {
    match token_from(args, 0) {
        Some(t) => Some(t),
        None => match env {
            Some(e) => non_empty(e@),
            None => None,
        },
    }
}

/// The token of a launch; `env` is the environment's.
pub fn resolve(args: Vec<String>, env: Option<&str>) -> (r: Option<String>)
    ensures
        opt_view(r) == resolved(args@, env),
{
    match parse_cli_token(args) {
        Some(t) => Some(t),
        None => match env {
            Some(e) => keep_non_empty(e.to_owned()),
            None => None,
        },
    }
}

/// The token of this run, captured at most once.
#[derive(Debug)]
pub struct ActivationToken {
    token: Option<Option<String>>,
}

impl ActivationToken {
    /// The captured token, if any.
    pub closed spec fn captured(&self) -> Option<Seq<char>> {
        match self.token {
            Some(t) => opt_view(t),
            None => None,
        }
    }

    /// Whether a launch has been looked at.
    pub closed spec fn is_set(&self) -> bool {
        self.token is Some
    }

    /// Nothing captured yet.
    pub fn unset() -> (r: ActivationToken)
        ensures
            !r.is_set(),
            r.captured() is None,
    {
        ActivationToken { token: None }
    }

    /// Captures the token of a launch; later calls change nothing.
    pub fn init(&mut self, args: Vec<String>, env: Option<&str>)
        ensures
            final(self).is_set(),
            final(self).captured() == (if old(self).is_set() {
                old(self).captured()
            } else {
                resolved(args@, env)
            }),
    {
        if self.token.is_none() {
            self.token = Some(resolve(args, env));
        }
    }

    /// The captured token.
    pub fn get(&self) -> (r: Option<&str>)
        ensures
            crate::text::opt_str_view(r) == self.captured(),
    {
        match &self.token {
            Some(t) => match t {
                Some(s) => Some(s.as_str()),
                None => None,
            },
            None => None,
        }
    }
}

/// A token is never empty.
pub proof fn law_token_is_not_empty(args: Seq<String>, env: Option<&str>)
    ensures
        resolved(args, env) is Some ==> resolved(args, env)->0.len() > 0,
{
    lemma_token_not_empty(args, 0);
}

proof fn lemma_token_not_empty(args: Seq<String>, i: int)
    ensures
        token_from(args, i) is Some ==> token_from(args, i)->0.len() > 0,
    decreases args.len() - i,
{
    if 0 <= i < args.len() {
        lemma_token_not_empty(args, i + 1);
    }
}

/// The first flag that carries a token decides, `--token=` by what follows it and
/// `--token` by the next argument; an empty one counts as none, and then, as without
/// any flag, the environment's is taken.
pub proof fn law_the_first_flag_decides(
    args: Seq<String>,
    at: int,
    rest: Seq<char>,
    env: Option<&str>,
)
    requires
        0 <= at <= args.len(),
        forall|i: int|
            0 <= i < at ==> !has_prefix(#[trigger] args[i]@, "--token="@) && !(args[i]@ == "--token"@
                && i + 1 < args.len()),
    ensures
        at == args.len() ==> token_from(args, 0) is None,
        at < args.len() && args[at]@ == "--token="@ + rest ==> token_from(args, 0) == (if rest.len()
            > 0 {
            Some(rest)
        } else {
            None
        }),
        at + 1 < args.len() && args[at]@ == "--token"@ ==> token_from(args, 0) == (if args[at
            + 1]@.len() > 0 {
            Some(args[at + 1]@)
        } else {
            None
        }),
        token_from(args, 0) matches Some(t) ==> resolved(args, env) == Some(t),
        token_from(args, 0) is None ==> resolved(args, env) == (if env is Some && env->0@.len() > 0 {
            Some(env->0@)
        } else {
            None
        }),
{
    lemma_skip_other_arguments(args, 0, at);
    reveal_strlit("--token");
    reveal_strlit("--token=");
    assert("--token"@.len() == 7 && "--token="@.len() == 8);
    if at < args.len() && args[at]@ == "--token="@ + rest {
        let s = args[at]@;
        assert(s.subrange(0, 8) =~= "--token="@);
        assert(has_prefix(s, "--token="@));
        assert(s.skip(8) =~= rest);
    }
}

proof fn lemma_skip_other_arguments(args: Seq<String>, i: int, at: int)
    requires
        0 <= i <= at <= args.len(),
        forall|k: int|
            0 <= k < at ==> !has_prefix(#[trigger] args[k]@, "--token="@) && !(args[k]@ == "--token"@
                && k + 1 < args.len()),
    ensures
        token_from(args, i) == token_from(args, at),
    decreases at - i,
{
    if i < at {
        assert(!has_prefix(args[i]@, "--token="@));
        lemma_skip_other_arguments(args, i + 1, at);
    }
}

} // verus!
