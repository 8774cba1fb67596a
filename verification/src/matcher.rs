//! The post-processor matcher: scans the alias-rewritten token stream for
//! the first flag matching a configured trigger condition, splices the
//! configured replacement tokens in place of the consumed span, and builds
//! the downstream command description with the captured value substituted
//! for the `$VALUE` placeholder.

use vstd::prelude::*;
use crate::config::ConditionKind;
use crate::config::PostProcessor;
use crate::config::PostProcessorCondition;
use crate::strutil::eq_prefixed;
use crate::strutil::str_eq;
use crate::strutil::has_eq_prefix;
use crate::strutil::tail_from;

verus! {

/// The literal token in a `run` list that stands for the captured value.
pub open spec fn value_placeholder() -> Seq<char> {
    seq!['$', 'V', 'A', 'L', 'U', 'E']
}

/// Whether condition `c` matches the token `this` with following token
/// `next` (empty when absent):
/// - `Is(v)`: `this` is the flag and `next` is `v`, or `this` is `flag=v`;
/// - `IsNot(v)`: `this` is the flag and `next` differs from `v`, or `this`
///   is `flag=` followed by anything other than exactly `v`;
/// - `IsSet`: `this` is the flag, value irrelevant.
pub open spec fn cond_matches(c: PostProcessorCondition, this: Seq<char>, next: Seq<char>) -> bool {
    match c.kind {
        ConditionKind::Is(v) => (this == c.flag@ && next == v@) || this == c.flag@ + seq!['=']
            + v@,
        ConditionKind::IsNot(v) => (this == c.flag@ && next != v@) || (eq_prefixed(c.flag@, this)
            && this != c.flag@ + seq!['='] + v@),
        ConditionKind::IsSet => this == c.flag@,
    }
}

/// A token equals `flag=v` exactly when it has the `flag=` prefix and its
/// suffix after the `=` is `v`.
pub proof fn lemma_eq_form(flag: Seq<char>, v: Seq<char>, this: Seq<char>)
    ensures
        (this == flag + seq!['='] + v) <==> (eq_prefixed(flag, this) && this.skip(
            flag.len() as int + 1,
        ) == v),
{
    let cat = flag + seq!['='] + v;
    if this == cat {
        assert(this.subrange(0, flag.len() as int) =~= flag);
        assert(this.skip(flag.len() as int + 1) =~= v);
    }
    if eq_prefixed(flag, this) && this.skip(flag.len() as int + 1) == v {
        assert(this =~= cat);
    }
}

/// Evaluates one condition against the token at the current position and
/// the following token (`next` is empty when absent).
fn cond_matches_exec(c: &PostProcessorCondition, this: &str, next: &str) -> (b: bool)
    ensures
        b == cond_matches(*c, this@, next@),
{
    match &c.kind {
        ConditionKind::Is(v) => {
            proof {
                lemma_eq_form(c.flag@, v@, this@);
            }
            if str_eq(this, c.flag.as_str()) && str_eq(next, v.as_str()) {
                true
            } else if has_eq_prefix(this, c.flag.as_str()) {
                // the token is longer than the flag, so flag_len + 1 fits in usize
                let this_len = this.unicode_len();
                let flag_len = c.flag.unicode_len();
                let suffix = tail_from(this, flag_len + 1);
                str_eq(suffix.as_str(), v.as_str())
            } else {
                false
            }
        },
        ConditionKind::IsNot(v) => {
            proof {
                lemma_eq_form(c.flag@, v@, this@);
            }
            if str_eq(this, c.flag.as_str()) {
                !str_eq(next, v.as_str())
            } else if has_eq_prefix(this, c.flag.as_str()) {
                // the token is longer than the flag, so flag_len + 1 fits in usize
                let this_len = this.unicode_len();
                let flag_len = c.flag.unicode_len();
                let suffix = tail_from(this, flag_len + 1);
                !str_eq(suffix.as_str(), v.as_str())
            } else {
                false
            }
        },
        ConditionKind::IsSet => str_eq(this, c.flag.as_str()),
    }
}

/// The first condition in `conds` that matches, in declaration order.
pub open spec fn first_cond_match(
    conds: Seq<PostProcessorCondition>,
    this: Seq<char>,
    next: Seq<char>,
) -> Option<PostProcessorCondition>
    decreases conds.len(),
{
    if conds.len() == 0 {
        None
    } else if cond_matches(conds[0], this, next) {
        Some(conds[0])
    } else {
        first_cond_match(conds.drop_first(), this, next)
    }
}

/// The first post-processor (with its matching condition) whose `when_any`
/// list matches, post-processors in declaration order, conditions within
/// each in declaration order.
pub open spec fn first_pp_match(
    pps: Seq<PostProcessor>,
    this: Seq<char>,
    next: Seq<char>,
) -> Option<(PostProcessor, PostProcessorCondition)>
    decreases pps.len(),
{
    if pps.len() == 0 {
        None
    } else {
        match first_cond_match(pps[0].when_any@, this, next) {
            Some(c) => Some((pps[0], c)),
            None => first_pp_match(pps.drop_first(), this, next),
        }
    }
}

/// The token after position `i`, or the empty string when absent.
pub open spec fn next_token(toks: Seq<Seq<char>>, i: int) -> Seq<char> {
    if i + 1 < toks.len() {
        toks[i + 1]
    } else {
        Seq::empty()
    }
}

/// The first match over all positions from `i` on: the leftmost position
/// whose token triggers some condition, together with the triggered
/// post-processor and condition.
pub open spec fn first_match_from(pps: Seq<PostProcessor>, toks: Seq<Seq<char>>, i: int) -> Option<
    (int, PostProcessor, PostProcessorCondition),
>
    recommends
        0 <= i,
    decreases toks.len() - i,
{
    if i >= toks.len() {
        None
    } else {
        match first_pp_match(pps, toks[i], next_token(toks, i)) {
            Some((pp, c)) => Some((i, pp, c)),
            None => first_match_from(pps, toks, i + 1),
        }
    }
}

/// A condition found by the first-match scan of one position does match
/// the tokens it was scanned against.
pub proof fn lemma_found_condition_matches(
    pps: Seq<PostProcessor>,
    this: Seq<char>,
    next: Seq<char>,
)
    ensures
        first_pp_match(pps, this, next) matches Some(m) ==> cond_matches(m.1, this, next),
    decreases pps.len(),
{
    if pps.len() > 0 {
        lemma_found_condition_within(pps[0].when_any@, this, next);
        if first_cond_match(pps[0].when_any@, this, next) is None {
            lemma_found_condition_matches(pps.drop_first(), this, next);
        }
    }
}

proof fn lemma_found_condition_within(
    conds: Seq<PostProcessorCondition>,
    this: Seq<char>,
    next: Seq<char>,
)
    ensures
        first_cond_match(conds, this, next) matches Some(c) ==> cond_matches(c, this, next),
    decreases conds.len(),
{
    if conds.len() > 0 && !cond_matches(conds[0], this, next) {
        lemma_found_condition_within(conds.drop_first(), this, next);
    }
}

/// Law: first match wins, globally.  The scan acts on the leftmost
/// position where any condition matches — no earlier position matches
/// anything — and when it finds nothing, no position matches at all.
pub proof fn lemma_first_match_wins(pps: Seq<PostProcessor>, toks: Seq<Seq<char>>)
    ensures
        match first_match_from(pps, toks, 0) {
            Some(m) => 0 <= m.0 < toks.len() && first_pp_match(
                pps,
                toks[m.0],
                next_token(toks, m.0),
            ) == Some((m.1, m.2)) && forall|p: int|
                0 <= p < m.0 ==> first_pp_match(pps, toks[p], next_token(toks, p)) is None,
            None => forall|p: int|
                0 <= p < toks.len() ==> first_pp_match(pps, toks[p], next_token(toks, p)) is None,
        },
{
    lemma_first_match_from_props(pps, toks, 0);
}

proof fn lemma_first_match_from_props(pps: Seq<PostProcessor>, toks: Seq<Seq<char>>, i: int)
    requires
        0 <= i <= toks.len(),
    ensures
        match first_match_from(pps, toks, i) {
            Some(m) => i <= m.0 < toks.len() && first_pp_match(
                pps,
                toks[m.0],
                next_token(toks, m.0),
            ) == Some((m.1, m.2)) && forall|p: int|
                i <= p < m.0 ==> first_pp_match(pps, toks[p], next_token(toks, p)) is None,
            None => forall|p: int|
                i <= p < toks.len() ==> first_pp_match(pps, toks[p], next_token(toks, p)) is None,
        },
    decreases toks.len() - i,
{
    if i < toks.len() && first_pp_match(pps, toks[i], next_token(toks, i)) is None {
        lemma_first_match_from_props(pps, toks, i + 1);
    }
}

/// The position just past the consumed span of a match at position `i`:
/// the matched flag token always; additionally the following token, when
/// one exists, unless the condition kind is `IsSet` or the token carried
/// its value in `flag=value` form.
pub open spec fn consumed_end(toks: Seq<Seq<char>>, i: int, c: PostProcessorCondition) -> int {
    if c.kind is IsSet || eq_prefixed(c.flag@, toks[i]) {
        i + 1
    } else if i + 2 <= toks.len() {
        i + 2
    } else {
        i + 1
    }
}

/// The value captured by a match at position `i`: the suffix after
/// `flag=` when the token carried its value joined by `=`, otherwise the
/// following token (empty when absent).
pub open spec fn captured_value(toks: Seq<Seq<char>>, i: int, c: PostProcessorCondition) -> Seq<
    char,
> {
    if eq_prefixed(c.flag@, toks[i]) {
        toks[i].skip(c.flag@.len() as int + 1)
    } else {
        next_token(toks, i)
    }
}

/// The tokens a post-processor splices in place of the consumed span.
pub open spec fn set_flags_of(pp: PostProcessor) -> Seq<Seq<char>> {
    match pp.set_flags {
        Some(fs) => fs.deep_view(),
        None => Seq::empty(),
    }
}

/// The whole token stream after a match at position `i`: the tokens before
/// the match, then the spliced `set_flags`, then every token after the
/// consumed span, verbatim.
pub open spec fn rewritten_on_match(
    toks: Seq<Seq<char>>,
    i: int,
    pp: PostProcessor,
    c: PostProcessorCondition,
) -> Seq<Seq<char>> {
    toks.take(i) + set_flags_of(pp) + toks.skip(consumed_end(toks, i, c))
}

/// The downstream command's arguments: the `run` list past the program
/// name, with each literal `$VALUE` token replaced by the captured value.
pub open spec fn run_args_of(pp: PostProcessor, captured: Seq<char>) -> Seq<Seq<char>> {
    pp.run.deep_view().skip(1).map_values(
        |t: Seq<char>|
            if t == value_placeholder() {
                captured
            } else {
                t
            },
    )
}

/// Law: an `IsSet` match never consumes the following token — only the
/// matched flag itself leaves the stream, and everything after it is
/// appended verbatim.
pub proof fn lemma_is_set_consumes_only_flag(
    toks: Seq<Seq<char>>,
    i: int,
    pp: PostProcessor,
    c: PostProcessorCondition,
)
    requires
        0 <= i < toks.len(),
        c.kind is IsSet,
    ensures
        consumed_end(toks, i, c) == i + 1,
        rewritten_on_match(toks, i, pp, c) == toks.take(i) + set_flags_of(pp) + toks.skip(i + 1),
{
}

/// The first condition of `conds` that matches, as a reference, or `None`.
fn find_cond_match<'a>(
    conds: &'a Vec<PostProcessorCondition>,
    this: &str,
    next: &str,
) -> (r: Option<&'a PostProcessorCondition>)
    ensures
        match r {
            Some(c) => first_cond_match(conds@, this@, next@) == Some(*c),
            None => first_cond_match(conds@, this@, next@) is None,
        },
{
    let n = conds.len();
    let mut i: usize = 0;
    proof {
        assert(conds@.skip(0) =~= conds@);
    }
    while i < n
        invariant
            n == conds@.len(),
            i <= n,
            first_cond_match(conds@, this@, next@) == first_cond_match(
                conds@.skip(i as int),
                this@,
                next@,
            ),
        decreases n - i,
    {
        let c = &conds[i];
        proof {
            assert(conds@.skip(i as int)[0] == conds@[i as int]);
            assert(conds@.skip(i as int).drop_first() =~= conds@.skip(i as int + 1));
        }
        if cond_matches_exec(c, this, next) {
            return Some(c);
        }
        i += 1;
    }
    proof {
        assert(conds@.skip(n as int) =~= Seq::<PostProcessorCondition>::empty());
    }
    None
}

/// The first post-processor of `pps` with a matching condition, together
/// with that condition, as references, or `None`.
fn find_pp_match<'a>(pps: &'a Vec<PostProcessor>, this: &str, next: &str) -> (r: Option<
    (&'a PostProcessor, &'a PostProcessorCondition),
>)
    ensures
        match r {
            Some(m) => first_pp_match(pps@, this@, next@) == Some((*m.0, *m.1)),
            None => first_pp_match(pps@, this@, next@) is None,
        },
{
    let n = pps.len();
    let mut i: usize = 0;
    proof {
        assert(pps@.skip(0) =~= pps@);
    }
    while i < n
        invariant
            n == pps@.len(),
            i <= n,
            first_pp_match(pps@, this@, next@) == first_pp_match(
                pps@.skip(i as int),
                this@,
                next@,
            ),
        decreases n - i,
    {
        let pp = &pps[i];
        proof {
            assert(pps@.skip(i as int)[0] == pps@[i as int]);
            assert(pps@.skip(i as int).drop_first() =~= pps@.skip(i as int + 1));
        }
        match find_cond_match(&pp.when_any, this, next) {
            Some(c) => {
                return Some((pp, c));
            },
            None => {},
        }
        i += 1;
    }
    proof {
        assert(pps@.skip(n as int) =~= Seq::<PostProcessor>::empty());
    }
    None
}

/// The downstream command produced by a post-processor match: the program
/// to run and its arguments, with `$VALUE` already substituted.
pub struct PostProcessorInvocation {
    pub program: String,
    pub args: Vec<String>,
}

/// Scans the alias-rewritten tokens for the first post-processor match,
/// left to right, post-processors and their conditions in declaration
/// order.  On a match it splices the post-processor's `set_flags` in place
/// of the consumed span, appends every later token verbatim, and — when the
/// `run` list is non-empty — returns the downstream command with `$VALUE`
/// replaced by the captured value.  When nothing matches, the tokens come
/// back unchanged and no downstream command is produced.
pub fn get_post_processor(args: &Vec<String>, post_processors: &Vec<PostProcessor>) -> (r: (
    Option<PostProcessorInvocation>,
    Vec<String>,
))
    ensures
        match first_match_from(post_processors@, args.deep_view(), 0) {
            None => r.0 is None && r.1.deep_view() == args.deep_view(),
            Some(m) => {
                &&& r.1.deep_view() == rewritten_on_match(args.deep_view(), m.0, m.1, m.2)
                &&& (m.1.run@.len() == 0 ==> r.0 is None)
                &&& (m.1.run@.len() > 0 ==> (r.0 matches Some(inv) && inv.program@
                    == m.1.run.deep_view()[0] && inv.args.deep_view() == run_args_of(
                    m.1,
                    captured_value(args.deep_view(), m.0, m.2),
                )))
            },
        },
{
    let ghost toks: Seq<Seq<char>> = args.deep_view();
    let ghost pps: Seq<PostProcessor> = post_processors@;
    let mut new_args: Vec<String> = Vec::new();
    let num_args = args.len();
    let mut i: usize = 0;
    while i < num_args
        invariant
            toks == args.deep_view(),
            pps == post_processors@,
            num_args == args@.len(),
            i <= num_args,
            first_match_from(pps, toks, 0) == first_match_from(pps, toks, i as int),
            new_args.deep_view() =~= toks.take(i as int),
        decreases num_args - i,
    {
        let this_arg: &String = &args[i];
        let next_arg: &str = if i + 1 < num_args {
            args[i + 1].as_str()
        } else {
            ""
        };
        proof {
            assert(toks[i as int] == args@[i as int]@);
            reveal_strlit("");
            assert(""@ =~= Seq::<char>::empty());
            if i + 1 < num_args {
                assert(toks[i as int + 1] == args@[i as int + 1]@);
            }
            assert(next_arg@ == next_token(toks, i as int));
        }
        match find_pp_match(post_processors, this_arg.as_str(), next_arg) {
            None => {
                let ghost prev = new_args.deep_view();
                new_args.push(this_arg.clone());
                proof {
                    assert(new_args.deep_view() =~= prev.push(toks[i as int]));
                    assert(new_args.deep_view() =~= toks.take(i as int + 1));
                }
                i += 1;
            },
            Some(m) => {
                let pp: &PostProcessor = m.0;
                let c: &PostProcessorCondition = m.1;
                proof {
                    assert(first_match_from(pps, toks, i as int) == Some((i as int, *pp, *c)));
                }
                let ghost head = toks.take(i as int);
                match &pp.set_flags {
                    Some(set_flags) => {
                        let sn = set_flags.len();
                        let mut k: usize = 0;
                        proof {
                            assert(new_args.deep_view() =~= head + set_flags.deep_view().take(0));
                        }
                        while k < sn
                            invariant
                                sn == set_flags@.len(),
                                k <= sn,
                                new_args.deep_view() =~= head + set_flags.deep_view().take(
                                    k as int,
                                ),
                            decreases sn - k,
                        {
                            let ghost prev = new_args.deep_view();
                            new_args.push(set_flags[k].clone());
                            proof {
                                assert(new_args.deep_view() =~= prev.push(
                                    set_flags.deep_view()[k as int],
                                ));
                                assert(new_args.deep_view() =~= head + set_flags.deep_view().take(
                                    k as int + 1,
                                ));
                            }
                            k += 1;
                        }
                        proof {
                            assert(set_flags.deep_view().take(sn as int) =~= set_flags.deep_view());
                        }
                    },
                    None => {},
                }
                proof {
                    assert(new_args.deep_view() =~= head + set_flags_of(*pp));
                }
                let eq_form = has_eq_prefix(this_arg.as_str(), c.flag.as_str());
                let captured: String = if eq_form {
                    // the token is longer than the flag, so flag_len + 1 fits in usize
                    let this_len = this_arg.as_str().unicode_len();
                    let flag_len = c.flag.unicode_len();
                    tail_from(this_arg.as_str(), flag_len + 1)
                } else {
                    next_arg.to_owned()
                };
                proof {
                    assert(captured@ == captured_value(toks, i as int, *c));
                }
                let is_set_kind = match &c.kind {
                    ConditionKind::IsSet => true,
                    _ => false,
                };
                let span_end: usize = if is_set_kind || eq_form {
                    i + 1
                } else if num_args - i >= 2 {
                    i + 2
                } else {
                    i + 1
                };
                proof {
                    assert(span_end as int == consumed_end(toks, i as int, *c));
                }
                let ghost mid = new_args.deep_view();
                let mut j: usize = span_end;
                proof {
                    assert(new_args.deep_view() =~= mid + toks.subrange(
                        span_end as int,
                        j as int,
                    ));
                }
                while j < num_args
                    invariant
                        toks == args.deep_view(),
                        num_args == args@.len(),
                        span_end <= j <= num_args,
                        new_args.deep_view() =~= mid + toks.subrange(span_end as int, j as int),
                    decreases num_args - j,
                {
                    let ghost prev = new_args.deep_view();
                    new_args.push(args[j].clone());
                    proof {
                        assert(toks[j as int] == args@[j as int]@);
                        assert(new_args.deep_view() =~= prev.push(toks[j as int]));
                        assert(new_args.deep_view() =~= mid + toks.subrange(
                            span_end as int,
                            j as int + 1,
                        ));
                    }
                    j += 1;
                }
                proof {
                    assert(toks.subrange(span_end as int, num_args as int) =~= toks.skip(
                        span_end as int,
                    ));
                    assert(new_args.deep_view() =~= rewritten_on_match(toks, i as int, *pp, *c));
                }
                if pp.run.len() > 0 {
                    let program = pp.run[0].clone();
                    let rn = pp.run.len();
                    let mut run_args: Vec<String> = Vec::new();
                    let mut k: usize = 1;
                    proof {
                        assert(run_args.deep_view() =~= pp.run.deep_view().subrange(
                            1,
                            1,
                        ).map_values(
                            |t: Seq<char>|
                                if t == value_placeholder() {
                                    captured@
                                } else {
                                    t
                                },
                        ));
                    }
                    while k < rn
                        invariant
                            rn == pp.run@.len(),
                            1 <= k <= rn,
                            run_args.deep_view() =~= pp.run.deep_view().subrange(
                                1,
                                k as int,
                            ).map_values(
                                |t: Seq<char>|
                                    if t == value_placeholder() {
                                        captured@
                                    } else {
                                        t
                                    },
                            ),
                        decreases rn - k,
                    {
                        let t = &pp.run[k];
                        let ghost prev = run_args.deep_view();
                        let is_ph = str_eq(t.as_str(), "$VALUE");
                        proof {
                            reveal_strlit("$VALUE");
                            assert("$VALUE"@ =~= value_placeholder());
                            assert(pp.run.deep_view()[k as int] == pp.run@[k as int]@);
                        }
                        if is_ph {
                            run_args.push(captured.clone());
                        } else {
                            run_args.push(t.clone());
                        }
                        proof {
                            let f = |t: Seq<char>|
                                if t == value_placeholder() {
                                    captured@
                                } else {
                                    t
                                };
                            assert(run_args.deep_view() =~= prev.push(
                                f(pp.run.deep_view()[k as int]),
                            ));
                            assert(pp.run.deep_view().subrange(1, k as int + 1) =~= pp
                                .run
                                .deep_view()
                                .subrange(1, k as int)
                                .push(pp.run.deep_view()[k as int]));
                            assert(run_args.deep_view() =~= pp.run.deep_view().subrange(
                                1,
                                k as int + 1,
                            ).map_values(f));
                        }
                        k += 1;
                    }
                    proof {
                        assert(pp.run.deep_view().subrange(1, rn as int) =~= pp
                            .run
                            .deep_view()
                            .skip(1));
                        assert(run_args.deep_view() =~= run_args_of(
                            *pp,
                            captured_value(toks, i as int, *c),
                        ));
                        assert(program@ == pp.run.deep_view()[0]);
                    }
                    return (Some(PostProcessorInvocation { program, args: run_args }), new_args);
                }
                return (None, new_args);
            },
        }
    }
    proof {
        assert(toks.take(num_args as int) =~= toks);
        assert(first_match_from(pps, toks, num_args as int) is None);
    }
    (None, new_args)
}

} // verus!
