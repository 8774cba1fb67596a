//! The alias rewriter: rewrites tokens matching a configured alias into
//! their canonical flag form, respecting the `--` end-of-options marker.

use vstd::prelude::*;
use crate::config::FlagAlias;
use crate::strutil::eq_prefixed;
use crate::strutil::str_eq;
use crate::strutil::has_eq_prefix;
use crate::strutil::tail_from;
use crate::strutil::concat_str;

verus! {

/// The end-of-options marker `--`.
pub open spec fn end_of_options_marker() -> Seq<char> {
    seq!['-', '-']
}

/// Whether alias `a` applies to token `tok`: exact match, or `tok` is
/// `alias=` followed by anything.  A token that merely starts with the
/// alias text, without the `=` boundary, does not match.
pub open spec fn alias_applies(a: FlagAlias, tok: Seq<char>) -> bool {
    tok == a.alias@ || eq_prefixed(a.alias@, tok)
}

/// The first configured alias that applies to `tok`, in declaration order.
pub open spec fn first_alias_match(aliases: Seq<FlagAlias>, tok: Seq<char>) -> Option<FlagAlias>
    decreases aliases.len(),
{
    if aliases.len() == 0 {
        None
    } else if alias_applies(aliases[0], tok) {
        Some(aliases[0])
    } else {
        first_alias_match(aliases.drop_first(), tok)
    }
}

/// One token after alias rewriting: the canonical flag replaces the alias
/// prefix (the whole token in the exact case, the part before `=` in the
/// `alias=value` case); a token no alias applies to is unchanged.
pub open spec fn rewrite_token(aliases: Seq<FlagAlias>, tok: Seq<char>) -> Seq<char> {
    match first_alias_match(aliases, tok) {
        Some(a) => a.flag@ + tok.skip(a.alias@.len() as int),
        None => tok,
    }
}

/// Whether position `i` lies at or after the end-of-options marker, so its
/// token passes through unchanged (the marker itself is never rewritten).
pub open spec fn frozen_at(toks: Seq<Seq<char>>, i: int) -> bool {
    toks[i] == end_of_options_marker() || exists|j: int|
        0 <= j < i && toks[j] == end_of_options_marker()
}

/// The whole token stream after alias rewriting: a 1:1 pointwise mapping
/// that preserves token count and order.
pub open spec fn rewrite_tokens(aliases: Seq<FlagAlias>, toks: Seq<Seq<char>>) -> Seq<Seq<char>> {
    Seq::new(
        toks.len(),
        |i: int|
            if frozen_at(toks, i) {
                toks[i]
            } else {
                rewrite_token(aliases, toks[i])
            },
    )
}

/// Law: alias rewriting preserves the number of tokens and their relative
/// order — the output is a pointwise image of the input, token for token.
pub proof fn lemma_rewrite_preserves_count(aliases: Seq<FlagAlias>, toks: Seq<Seq<char>>)
    ensures
        rewrite_tokens(aliases, toks).len() == toks.len(),
        forall|i: int|
            0 <= i < toks.len() ==> rewrite_tokens(aliases, toks)[i] == if frozen_at(toks, i) {
                toks[i]
            } else {
                rewrite_token(aliases, toks[i])
            },
{
}

/// Law: every token at or after the end-of-options marker is passed
/// through unchanged, even when an alias would otherwise apply to it.
pub proof fn lemma_end_of_options_freeze(aliases: Seq<FlagAlias>, toks: Seq<Seq<char>>, i: int)
    requires
        0 <= i < toks.len(),
        exists|j: int| 0 <= j <= i && toks[j] == end_of_options_marker(),
    ensures
        rewrite_tokens(aliases, toks)[i] == toks[i],
{
    let j = choose|j: int| 0 <= j <= i && toks[j] == end_of_options_marker();
    assert(frozen_at(toks, i));
}

/// Law: no false prefix — a token that equals no alias exactly and has no
/// `alias=` boundary is left unchanged by rewriting.
pub proof fn lemma_unmatched_token_unchanged(aliases: Seq<FlagAlias>, tok: Seq<char>)
    requires
        forall|k: int| 0 <= k < aliases.len() ==> !alias_applies(aliases[k], tok),
    ensures
        rewrite_token(aliases, tok) == tok,
    decreases aliases.len(),
{
    if aliases.len() > 0 {
        assert(forall|k: int|
            0 <= k < aliases.drop_first().len() ==> aliases.drop_first()[k] == aliases[k + 1]);
        lemma_unmatched_token_unchanged(aliases.drop_first(), tok);
    }
}

/// The alias returned by a first-match scan does apply to the token.
proof fn lemma_first_alias_match_applies(aliases: Seq<FlagAlias>, tok: Seq<char>)
    ensures
        first_alias_match(aliases, tok) matches Some(a) ==> alias_applies(a, tok),
    decreases aliases.len(),
{
    if aliases.len() > 0 && !alias_applies(aliases[0], tok) {
        lemma_first_alias_match_applies(aliases.drop_first(), tok);
    }
}

/// The first alias that applies to `tok`, as a reference, or `None`.
fn find_alias<'a>(flag_aliases: &'a Vec<FlagAlias>, tok: &str) -> (r: Option<&'a FlagAlias>)
    ensures
        match r {
            Some(a) => first_alias_match(flag_aliases@, tok@) == Some(*a),
            None => first_alias_match(flag_aliases@, tok@) is None,
        },
{
    let n = flag_aliases.len();
    let mut i: usize = 0;
    proof {
        assert(flag_aliases@.skip(0) =~= flag_aliases@);
    }
    while i < n
        invariant
            n == flag_aliases@.len(),
            i <= n,
            first_alias_match(flag_aliases@, tok@) == first_alias_match(
                flag_aliases@.skip(i as int),
                tok@,
            ),
        decreases n - i,
    {
        let a = &flag_aliases[i];
        proof {
            assert(flag_aliases@.skip(i as int)[0] == flag_aliases@[i as int]);
            assert(flag_aliases@.skip(i as int).drop_first() =~= flag_aliases@.skip(i as int + 1));
        }
        if str_eq(tok, a.alias.as_str()) || has_eq_prefix(tok, a.alias.as_str()) {
            return Some(a);
        }
        i += 1;
    }
    proof {
        assert(flag_aliases@.skip(n as int) =~= Seq::<FlagAlias>::empty());
    }
    None
}

/// Rewrites every token of `args` according to the configured aliases,
/// left to right, stopping at the `--` end-of-options marker.  The output
/// has exactly one token per input token, in the same order.
pub fn configure_flag_aliases(flag_aliases: &Vec<FlagAlias>, args: &Vec<String>) -> (new_args: Vec<
    String,
>)
    ensures
        new_args.deep_view() == rewrite_tokens(flag_aliases@, args.deep_view()),
{
    let ghost toks: Seq<Seq<char>> = args.deep_view();
    let mut new_args: Vec<String> = Vec::new();
    let mut stop_parsing_args = false;
    let n = args.len();
    let mut i: usize = 0;
    while i < n
        invariant
            toks == args.deep_view(),
            n == args@.len(),
            i <= n,
            stop_parsing_args == exists|j: int|
                0 <= j < i && toks[j] == end_of_options_marker(),
            new_args.deep_view() =~= rewrite_tokens(flag_aliases@, toks).take(i as int),
        decreases n - i,
    {
        let arg: &String = &args[i];
        proof {
            assert(toks[i as int] == args@[i as int]@);
        }
        let ghost prev = new_args.deep_view();
        let is_marker = str_eq(arg.as_str(), "--");
        proof {
            reveal_strlit("--");
            assert("--"@ =~= end_of_options_marker());
        }
        if stop_parsing_args || is_marker {
            stop_parsing_args = true;
            new_args.push(arg.clone());
            proof {
                assert(frozen_at(toks, i as int));
                assert(new_args.deep_view() =~= prev.push(toks[i as int]));
            }
        } else {
            proof {
                assert(!frozen_at(toks, i as int));
            }
            match find_alias(flag_aliases, arg.as_str()) {
                Some(f) => {
                    proof {
                        lemma_first_alias_match_applies(flag_aliases@, toks[i as int]);
                    }
                    let alias_len = f.alias.unicode_len();
                    let tail = tail_from(arg.as_str(), alias_len);
                    let rewritten = concat_str(f.flag.as_str(), tail.as_str());
                    new_args.push(rewritten);
                    proof {
                        assert(new_args.deep_view() =~= prev.push(
                            rewrite_token(flag_aliases@, toks[i as int]),
                        ));
                    }
                },
                None => {
                    new_args.push(arg.clone());
                    proof {
                        assert(new_args.deep_view() =~= prev.push(toks[i as int]));
                    }
                },
            }
        }
        proof {
            assert(new_args.deep_view() =~= rewrite_tokens(flag_aliases@, toks).take(i as int + 1));
        }
        i += 1;
    }
    proof {
        assert(rewrite_tokens(flag_aliases@, toks).take(n as int) =~= rewrite_tokens(
            flag_aliases@,
            toks,
        ));
    }
    new_args
}

} // verus!
