//! Deciding whether a search ignores case, from the trailing argument tokens
//! and whether the environment asks for it.
use vstd::prelude::*;

verus! {

/// The token that asks for a case-insensitive search.
pub open spec fn insensitive_token() -> Seq<char> {
    seq!['-', 'i']
}

/// The token that asks for a case-sensitive search.
pub open spec fn sensitive_token() -> Seq<char> {
    seq!['-', 's']
}

/// The characters of each argument.
pub open spec fn arg_views(args: Seq<String>) -> Seq<Seq<char>> {
    args.map_values(|a: String| a@)
}

/// Whether case is ignored: the first recognised token decides, and with
/// none the environment does.
pub open spec fn resolved_ignore_case(tokens: Seq<Seq<char>>, env_has_ignore_case: bool) -> bool
    decreases tokens.len(),
{
    if tokens.len() == 0 {
        env_has_ignore_case
    } else if tokens[0] == insensitive_token() {
        true
    } else if tokens[0] == sensitive_token() {
        false
    } else {
        resolved_ignore_case(tokens.drop_first(), env_has_ignore_case)
    }
}

/// An insensitive token that no sensitive token precedes makes the search
/// ignore case, whatever the environment says.
pub proof fn lemma_insensitive_token_wins(
    tokens: Seq<Seq<char>>,
    k: int,
    env_has_ignore_case: bool,
)
    requires
        0 <= k < tokens.len(),
        tokens[k] == insensitive_token(),
        forall|j: int| 0 <= j < k ==> tokens[j] != sensitive_token(),
    ensures
        resolved_ignore_case(tokens, env_has_ignore_case),
    decreases k,
{
    if k > 0 && tokens[0] != insensitive_token() {
        let rest = tokens.drop_first();
        assert forall|j: int| 0 <= j < k - 1 implies rest[j] != sensitive_token() by {
            assert(rest[j] == tokens[j + 1]);
        }
        lemma_insensitive_token_wins(rest, k - 1, env_has_ignore_case);
    }
}

/// A sensitive token that no insensitive token precedes makes the search
/// respect case, whatever the environment says.
pub proof fn lemma_sensitive_token_first_wins(
    tokens: Seq<Seq<char>>,
    k: int,
    env_has_ignore_case: bool,
)
    requires
        0 <= k < tokens.len(),
        tokens[k] == sensitive_token(),
        forall|j: int| 0 <= j < k ==> tokens[j] != insensitive_token(),
    ensures
        !resolved_ignore_case(tokens, env_has_ignore_case),
    decreases k,
{
    if k > 0 && tokens[0] != sensitive_token() {
        let rest = tokens.drop_first();
        assert forall|j: int| 0 <= j < k - 1 implies rest[j] != insensitive_token() by {
            assert(rest[j] == tokens[j + 1]);
        }
        lemma_sensitive_token_first_wins(rest, k - 1, env_has_ignore_case);
    }
}

/// With no recognised token, the environment signal decides.
pub proof fn lemma_environment_decides_without_tokens(
    tokens: Seq<Seq<char>>,
    env_has_ignore_case: bool,
)
    requires
        forall|j: int|
            0 <= j < tokens.len() ==> #[trigger] tokens[j] != insensitive_token() && tokens[j]
                != sensitive_token(),
    ensures
        resolved_ignore_case(tokens, env_has_ignore_case) == env_has_ignore_case,
    decreases tokens.len(),
{
    if tokens.len() > 0 {
        let rest = tokens.drop_first();
        assert forall|j: int| 0 <= j < rest.len() implies #[trigger] rest[j] != insensitive_token()
            && rest[j] != sensitive_token() by {
            assert(rest[j] == tokens[j + 1]);
        }
        lemma_environment_decides_without_tokens(rest, env_has_ignore_case);
    }
}

/// Whether `arg` is a dash followed by `letter`, and nothing else.
fn is_flag(arg: &str, letter: char) -> (r: bool)
    ensures
        r == (arg@ == seq!['-', letter]),
{
    if arg.unicode_len() != 2 {
        return false;
    }
    let first = arg.get_char(0);
    let second = arg.get_char(1);
    proof {
        if first == '-' && second == letter {
            assert(arg@ =~= seq!['-', letter]);
        }
    }
    first == '-' && second == letter
}

/// Whether a search ignores case, given the trailing argument tokens (not
/// the program name, query or file path) and whether the environment signal
/// is present. The first of `-i` and `-s` among the tokens decides; other
/// tokens are skipped; with neither, the environment signal decides.
pub fn determine_case_sensitivity(args: &[String], env_has_ignore_case: bool) -> (r: bool)
    ensures
        r == resolved_ignore_case(arg_views(args@), env_has_ignore_case),
{
    let ghost all = arg_views(args@);
    let mut i: usize = 0;
    assert(all.skip(0) =~= all);
    while i < args.len()
        invariant
            i <= args@.len(),
            all == arg_views(args@),
            resolved_ignore_case(all.skip(i as int), env_has_ignore_case)
                == resolved_ignore_case(all, env_has_ignore_case),
        decreases args@.len() - i,
    {
        let arg = args[i].as_str();
        assert(all.skip(i as int)[0] == arg@);
        if is_flag(arg, 'i') {
            return true;
        }
        if is_flag(arg, 's') {
            return false;
        }
        assert(all.skip(i as int).drop_first() =~= all.skip(i + 1));
        i += 1;
    }
    assert(all.skip(i as int) =~= Seq::<Seq<char>>::empty());
    env_has_ignore_case
}

} // verus!
