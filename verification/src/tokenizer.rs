use vstd::prelude::*;

verus! {

/// A character that separates tokens: one of the Unicode white-space
/// characters, exactly as `char::is_whitespace` classifies them.
pub open spec fn is_space_char(c: char) -> bool {
    let u = c as u32;
    u == 0x20 || (0x09 <= u && u <= 0x0d) || u == 0x85 || u == 0xa0 || u == 0x1680
        || (0x2000 <= u && u <= 0x200a) || u == 0x2028 || u == 0x2029 || u == 0x202f
        || u == 0x205f || u == 0x3000
}

/// Decides whether `c` separates tokens.
pub fn is_space(c: char) -> (r: bool)
    ensures
        r == is_space_char(c),
{
    let u = c as u32;
    u == 0x20 || (0x09 <= u && u <= 0x0d) || u == 0x85 || u == 0xa0 || u == 0x1680
        || (0x2000 <= u && u <= 0x200a) || u == 0x2028 || u == 0x2029 || u == 0x202f
        || u == 0x205f || u == 0x3000
}

/// Length of the token that starts at the head of `s`: the number of
/// characters before the first space character (0 on an empty sequence or
/// one that starts with a space).
pub open spec fn token_len(s: Seq<char>) -> nat
    decreases s.len(),
{
    if s.len() == 0 || is_space_char(s[0]) {
        0
    } else {
        1 + token_len(s.skip(1))
    }
}

/// The token sequence of one line of input: what splitting the line on runs
/// of white space leaves, in order, with leading and trailing white space
/// discarded.
pub open spec fn tokens_of(s: Seq<char>) -> Seq<Seq<char>>
    decreases s.len(),
    via tokens_of_decreases
{
    if s.len() == 0 {
        Seq::empty()
    } else if is_space_char(s[0]) {
        tokens_of(s.skip(1))
    } else {
        seq![s.take(token_len(s) as int)] + tokens_of(s.skip(token_len(s) as int))
    }
}

#[via_fn]
proof fn tokens_of_decreases(s: Seq<char>) {
    if s.len() != 0 && !is_space_char(s[0]) {
        assert(token_len(s) == 1 + token_len(s.skip(1)));
        lemma_token_len_bound(s);
    }
}

/// The sequence of character sequences held by a sequence of strings.
pub open spec fn views_of(ts: Seq<String>) -> Seq<Seq<char>> {
    ts.map_values(|t: String| t@)
}

pub proof fn lemma_token_len_bound(s: Seq<char>)
    ensures
        token_len(s) <= s.len(),
    decreases s.len(),
{
    if s.len() != 0 && !is_space_char(s[0]) {
        lemma_token_len_bound(s.skip(1));
    }
}

/// If the first `k` characters of `s` are not spaces and character `k`
/// either does not exist or is a space, then the head token is exactly the
/// first `k` characters.
pub proof fn lemma_token_len_is(s: Seq<char>, k: int)
    requires
        0 <= k <= s.len(),
        forall|j: int| 0 <= j < k ==> !is_space_char(s[j]),
        k == s.len() || is_space_char(s[k]),
    ensures
        token_len(s) == k,
    decreases k,
{
    if k == 0 {
    } else {
        assert(!is_space_char(s[0]));
        lemma_token_len_is(s.skip(1), k - 1);
    }
}

/// An input of nothing but white space (the empty input included) has no
/// tokens at all.
pub proof fn lemma_all_space_no_tokens(s: Seq<char>)
    requires
        forall|i: int| 0 <= i < s.len() ==> is_space_char(s[i]),
    ensures
        tokens_of(s).len() == 0,
    decreases s.len(),
{
    if s.len() != 0 {
        assert(is_space_char(s[0]));
        lemma_all_space_no_tokens(s.skip(1));
    }
}

/// Tokenization is a pure function of the input: any two token vectors that
/// carry the token sequence of the same line carry the same tokens.
pub proof fn lemma_tokenize_idempotent(s: Seq<char>, a: Seq<String>, b: Seq<String>)
    requires
        views_of(a) == tokens_of(s),
        views_of(b) == tokens_of(s),
    ensures
        views_of(a) == views_of(b),
{
}

/// Splits one line of input into its tokens.
pub fn tokenize(input: &str) -> (r: Vec<String>)
    ensures
        views_of(r@) == tokens_of(input@),
{
    let n = input.unicode_len();
    let mut toks: Vec<String> = Vec::new();
    let mut i: usize = 0;
    proof {
        assert(views_of(toks@) =~= Seq::<Seq<char>>::empty());
        assert(input@.skip(0) =~= input@);
        assert(views_of(toks@) + tokens_of(input@) =~= tokens_of(input@));
    }
    while i < n
        invariant
            n == input@.len(),
            i <= n,
            views_of(toks@) + tokens_of(input@.skip(i as int)) == tokens_of(input@),
        decreases n - i,
    {
        if is_space(input.get_char(i)) {
            proof {
                assert(input@.skip(i as int).skip(1) =~= input@.skip(i + 1));
            }
            i = i + 1;
        } else {
            let ghost prev = toks@;
            let start = i;
            i = i + 1;
            while i < n && !is_space(input.get_char(i))
                invariant
                    n == input@.len(),
                    start < i <= n,
                    forall|j: int| start <= j < i ==> !is_space_char(input@[j]),
                decreases n - i,
            {
                i = i + 1;
            }
            let tok = String::from_str(input.substring_char(start, i));
            toks.push(tok);
            proof {
                let t = input@.skip(start as int);
                lemma_token_len_is(t, i - start);
                assert(t.take(i - start) =~= input@.subrange(start as int, i as int));
                assert(t.skip(i - start) =~= input@.skip(i as int));
                assert(tokens_of(t) == seq![input@.subrange(start as int, i as int)]
                    + tokens_of(input@.skip(i as int)));
                assert(views_of(toks@) =~= views_of(prev).push(
                    input@.subrange(start as int, i as int),
                ));
                assert(views_of(toks@) + tokens_of(input@.skip(i as int)) =~= views_of(prev)
                    + tokens_of(input@.skip(start as int)));
            }
        }
    }
    proof {
        assert(input@.skip(n as int) =~= Seq::<char>::empty());
        assert(views_of(toks@) + tokens_of(input@.skip(n as int)) =~= views_of(toks@));
    }
    toks
}

} // verus!
