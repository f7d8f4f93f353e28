//! Path patterns.
use crate::text;
use vstd::prelude::*;

verus! {

/// Whether a pattern matches a path. `**` stands for any run of characters, `*`
/// for any run without a slash, and every other character for itself.
pub open spec fn matches(pattern: Seq<char>, path: Seq<char>) -> bool
    decreases pattern.len() + path.len(),
{
    if pattern.len() == 0 {
        path.len() == 0
    } else if pattern[0] == '*' && pattern.len() > 1 && pattern[1] == '*' {
        matches(pattern.skip(2), path) || (path.len() > 0 && matches(pattern, path.skip(1)))
    } else if pattern[0] == '*' {
        matches(pattern.skip(1), path) || (path.len() > 0 && path[0] != '/' && matches(
            pattern,
            path.skip(1),
        ))
    } else {
        path.len() > 0 && path[0] == pattern[0] && matches(pattern.skip(1), path.skip(1))
    }
}

/// Whether one of several patterns matches a path.
pub open spec fn any_matches(patterns: Seq<Seq<char>>, path: Seq<char>) -> bool {
    exists|i: int| 0 <= i < patterns.len() && matches(#[trigger] patterns[i], path)
}

fn match_from(pattern: &Vec<char>, i: usize, path: &Vec<char>, j: usize) -> (r: bool)
    requires
        i <= pattern@.len(),
        j <= path@.len(),
    ensures
        r == matches(pattern@.skip(i as int), path@.skip(j as int)),
    decreases pattern@.len() - i + path@.len() - j,
{
    let ghost p = pattern@.skip(i as int);
    let ghost s = path@.skip(j as int);
    if i == pattern.len() {
        return j == path.len();
    }
    assert(p[0] == pattern@[i as int]);
    if j < path.len() {
        assert(s[0] == path@[j as int]);
        assert(s.skip(1) =~= path@.skip(j + 1));
    }
    assert(p.skip(1) =~= pattern@.skip(i + 1));
    if pattern[i] == '*' && i + 1 < pattern.len() && pattern[i + 1] == '*' {
        assert(p[1] == pattern@[i + 1]);
        assert(p.skip(2) =~= pattern@.skip(i + 2));
        if match_from(pattern, i + 2, path, j) {
            return true;
        }
        j < path.len() && match_from(pattern, i, path, j + 1)
    } else if pattern[i] == '*' {
        if i + 1 < pattern.len() {
            assert(p[1] == pattern@[i + 1]);
        }
        if match_from(pattern, i + 1, path, j) {
            return true;
        }
        j < path.len() && path[j] != '/' && match_from(pattern, i, path, j + 1)
    } else {
        j < path.len() && path[j] == pattern[i] && match_from(pattern, i + 1, path, j + 1)
    }
}

/// Whether a pattern matches a path.
pub fn glob_match(pattern: &str, path: &str) -> (r: bool)
    ensures
        r == matches(pattern@, path@),
{
    let p: Vec<char> = text::chars_of(pattern);
    let s: Vec<char> = text::chars_of(path);
    assert(p@.skip(0) =~= p@);
    assert(s@.skip(0) =~= s@);
    match_from(&p, 0, &s, 0)
}

/// Whether one of several patterns matches a path.
pub fn any_match(patterns: &Vec<String>, path: &str) -> (r: bool)
    ensures
        r == any_matches(text::texts(patterns@), path@),
{
    let n: usize = patterns.len();
    let mut i: usize = 0;
    while i < n
        invariant
            n == patterns.len(),
            i <= n,
            forall|k: int| 0 <= k < i ==> !matches(#[trigger] text::texts(patterns@)[k], path@),
        decreases n - i,
    {
        assert(text::texts(patterns@)[i as int] == patterns@[i as int]@);
        if glob_match(patterns[i].as_str(), path) {
            return true;
        }
        i = i + 1;
    }
    false
}

/// A pattern that ends in `**` matches every path that begins with what stands
/// before it, and no other, where that part holds no star.
pub proof fn law_subtree_pattern(prefix: Seq<char>, path: Seq<char>)
    requires
        !prefix.contains('*'),
    ensures
        matches(prefix + seq!['*', '*'], path) <==> prefix.is_prefix_of(path),
    decreases prefix.len(),
{
    let pattern = prefix + seq!['*', '*'];
    if prefix.len() == 0 {
        assert(pattern =~= seq!['*', '*']);
        lemma_two_stars(path);
        assert(prefix.is_prefix_of(path)) by {
            assert(path.subrange(0, 0) =~= prefix);
        }
    } else {
        assert(prefix.contains(prefix[0]));
        assert(pattern[0] == prefix[0]);
        let rest = prefix.skip(1);
        assert(pattern.skip(1) =~= rest + seq!['*', '*']);
        assert forall|c: char| rest.contains(c) implies prefix.contains(c) by {
            let k = choose|k: int| 0 <= k < rest.len() && rest[k] == c;
            assert(prefix[k + 1] == c);
        }
        if path.len() > 0 {
            law_subtree_pattern(rest, path.skip(1));
            if path[0] == prefix[0] && rest.is_prefix_of(path.skip(1)) {
                assert(prefix =~= path.subrange(0, prefix.len() as int)) by {
                    assert forall|k: int| 0 <= k < prefix.len() implies prefix[k] == path[k] by {
                        if k > 0 {
                            assert(rest[k - 1] == path.skip(1).subrange(0, rest.len() as int)[k
                                - 1]);
                        }
                    }
                }
            }
            if prefix.is_prefix_of(path) {
                assert(prefix[0] == path.subrange(0, prefix.len() as int)[0]);
                assert(rest =~= path.skip(1).subrange(0, rest.len() as int)) by {
                    assert forall|k: int| 0 <= k < rest.len() implies rest[k] == path.skip(1)[k] by {
                        assert(prefix[k + 1] == path.subrange(0, prefix.len() as int)[k + 1]);
                    }
                }
            }
        }
    }
}

proof fn lemma_two_stars(path: Seq<char>)
    ensures
        matches(seq!['*', '*'], path),
    decreases path.len(),
{
    let stars = seq!['*', '*'];
    assert(stars.skip(2) =~= Seq::<char>::empty());
    if path.len() == 0 {
        assert(matches(stars.skip(2), path));
    } else {
        lemma_two_stars(path.skip(1));
    }
    assert(stars[0] == '*' && stars[1] == '*');
    assert(matches(stars, path));
}

/// A pattern without a star matches the path that it is, and no other.
pub proof fn law_plain_pattern_is_the_path(pattern: Seq<char>, path: Seq<char>)
    requires
        !pattern.contains('*'),
    ensures
        matches(pattern, path) <==> pattern == path,
    decreases pattern.len(),
{
    if pattern.len() > 0 {
        let rest = pattern.skip(1);
        assert(pattern.contains(pattern[0]));
        assert forall|c: char| rest.contains(c) implies pattern.contains(c) by {
            let k = choose|k: int| 0 <= k < rest.len() && rest[k] == c;
            assert(pattern[k + 1] == c);
        }
        if path.len() > 0 {
            law_plain_pattern_is_the_path(rest, path.skip(1));
            if path[0] == pattern[0] && rest == path.skip(1) {
                assert(pattern =~= seq![pattern[0]] + rest);
                assert(path =~= seq![path[0]] + path.skip(1));
            }
        }
    } else if path.len() == 0 {
        assert(pattern =~= path);
    }
}

/// A character that is no star stands for itself at the beginning of a pattern.
pub proof fn law_character_stands_for_itself(c: char, rest: Seq<char>, path: Seq<char>)
    requires
        c != '*',
    ensures
        matches(seq![c] + rest, path) <==> path.len() > 0 && path[0] == c && matches(
            rest,
            path.skip(1),
        ),
{
    let pattern = seq![c] + rest;
    assert(pattern[0] == c);
    assert(pattern.skip(1) =~= rest);
}

/// `**` stands for any run of characters, slashes too: what follows it may match
/// at any place of the path.
pub proof fn law_two_stars_stand_for_anything(rest: Seq<char>, path: Seq<char>)
    ensures
        matches(seq!['*', '*'] + rest, path) <==> exists|k: int|
            0 <= k <= path.len() && #[trigger] matches(rest, path.skip(k)),
    decreases path.len(),
{
    let pattern = seq!['*', '*'] + rest;
    assert(pattern[0] == '*' && pattern[1] == '*');
    assert(pattern.skip(2) =~= rest);
    assert(path.skip(0) =~= path);
    if path.len() > 0 {
        let tail = path.skip(1);
        law_two_stars_stand_for_anything(rest, tail);
        if matches(pattern, tail) {
            let k = choose|k: int| 0 <= k <= tail.len() && #[trigger] matches(rest, tail.skip(k));
            assert(tail.skip(k) =~= path.skip(k + 1));
            assert(matches(rest, path.skip(k + 1)));
        }
        if exists|k: int| 0 <= k <= path.len() && #[trigger] matches(rest, path.skip(k)) {
            let k = choose|k: int| 0 <= k <= path.len() && #[trigger] matches(rest, path.skip(k));
            if k > 0 {
                assert(tail.skip(k - 1) =~= path.skip(k));
                assert(matches(rest, tail.skip(k - 1)));
            }
        }
        if matches(rest, path) {
            assert(matches(rest, path.skip(0)));
        }
    } else {
        if exists|k: int| 0 <= k <= path.len() && #[trigger] matches(rest, path.skip(k)) {
            let k = choose|k: int| 0 <= k <= path.len() && #[trigger] matches(rest, path.skip(k));
            assert(k == 0);
        }
        if matches(rest, path) {
            assert(matches(rest, path.skip(0)));
        }
    }
}

/// `*` stands for any run of characters without a slash: what follows it may match
/// at any place of the path before which there is no slash.
pub proof fn law_star_stops_at_a_slash(rest: Seq<char>, path: Seq<char>)
    requires
        rest.len() > 0 ==> rest[0] != '*',
    ensures
        matches(seq!['*'] + rest, path) <==> exists|k: int|
            0 <= k <= path.len() && !path.take(k).contains('/') && #[trigger] matches(
                rest,
                path.skip(k),
            ),
    decreases path.len(),
{
    let pattern = seq!['*'] + rest;
    assert(pattern[0] == '*');
    assert(pattern.skip(1) =~= rest);
    assert(pattern.len() > 1 ==> pattern[1] == rest[0]);
    assert(path.skip(0) =~= path);
    assert(!path.take(0).contains('/'));
    if matches(rest, path) {
        assert(matches(rest, path.skip(0)));
    }
    if path.len() > 0 {
        let tail = path.skip(1);
        law_star_stops_at_a_slash(rest, tail);
        if path[0] != '/' && matches(pattern, tail) {
            let k = choose|k: int|
                0 <= k <= tail.len() && !tail.take(k).contains('/') && #[trigger] matches(
                    rest,
                    tail.skip(k),
                );
            assert(tail.skip(k) =~= path.skip(k + 1));
            assert(!path.take(k + 1).contains('/')) by {
                let head = path.take(k + 1);
                if head.contains('/') {
                    let i = choose|i: int| 0 <= i < head.len() && head[i] == '/';
                    assert(i > 0);
                    assert(tail.take(k)[i - 1] == '/');
                }
            }
            assert(matches(rest, path.skip(k + 1)));
        }
        if exists|k: int|
            0 <= k <= path.len() && !path.take(k).contains('/') && #[trigger] matches(
                rest,
                path.skip(k),
            ) {
            let k = choose|k: int|
                0 <= k <= path.len() && !path.take(k).contains('/') && #[trigger] matches(
                    rest,
                    path.skip(k),
                );
            if k > 0 {
                assert(path.take(k)[0] == path[0]);
                assert(path[0] != '/');
                assert(tail.skip(k - 1) =~= path.skip(k));
                assert(!tail.take(k - 1).contains('/')) by {
                    let head = tail.take(k - 1);
                    if head.contains('/') {
                        let i = choose|i: int| 0 <= i < head.len() && head[i] == '/';
                        assert(path.take(k)[i + 1] == '/');
                    }
                }
                assert(matches(rest, tail.skip(k - 1)));
            }
        }
    }
}

/// The empty pattern matches the empty path alone.
pub proof fn law_empty_pattern(path: Seq<char>)
    ensures
        matches(Seq::empty(), path) <==> path.len() == 0,
{
}

} // verus!
