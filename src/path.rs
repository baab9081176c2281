//! Lexical normalisation of `/`-separated paths.

use vstd::prelude::*;

verus! {

/// The pieces of `p` between its `/` separators (at least one, maybe empty).
pub open spec fn split_slash(p: Seq<char>) -> Seq<Seq<char>>
    decreases p.len(),
{
    if p.len() == 0 {
        seq![Seq::<char>::empty()]
    } else {
        let r = split_slash(p.drop_last());
        if p.last() == '/' {
            r.push(Seq::<char>::empty())
        } else {
            r.update(r.len() - 1, r.last().push(p.last()))
        }
    }
}

/// The stack of names after one more piece: empty pieces and `.` are
/// dropped, `..` removes the last name when there is one.
pub open spec fn apply_piece(stack: Seq<Seq<char>>, piece: Seq<char>) -> Seq<Seq<char>> {
    if piece.len() == 0 || piece == seq!['.'] {
        stack
    } else if piece == seq!['.', '.'] {
        if stack.len() > 0 {
            stack.drop_last()
        } else {
            stack
        }
    } else {
        stack.push(piece)
    }
}

pub open spec fn resolve(pieces: Seq<Seq<char>>) -> Seq<Seq<char>>
    decreases pieces.len(),
{
    if pieces.len() == 0 {
        Seq::<Seq<char>>::empty()
    } else {
        apply_piece(resolve(pieces.drop_last()), pieces.last())
    }
}

/// The names joined by `/`.
pub open spec fn join_slash(names: Seq<Seq<char>>) -> Seq<char>
    decreases names.len(),
{
    if names.len() == 0 {
        Seq::<char>::empty()
    } else if names.len() == 1 {
        names[0]
    } else {
        join_slash(names.drop_last()) + seq!['/'] + names.last()
    }
}

pub open spec fn normalized(p: Seq<char>) -> Seq<char> {
    let root = if p.len() > 0 && p[0] == '/' {
        seq!['/']
    } else {
        Seq::<char>::empty()
    };
    root + join_slash(resolve(split_slash(p)))
}

proof fn lemma_split_nonempty(p: Seq<char>)
    ensures
        split_slash(p).len() >= 1,
    decreases p.len(),
{
    if p.len() > 0 {
        lemma_split_nonempty(p.drop_last());
    }
}

/// Gives `stack` the effect of the piece `p[from..to]`.
fn push_piece(stack: &mut Vec<String>, p: &str, from: usize, to: usize)
    requires
        from <= to <= p@.len(),
    ensures
        final(stack)@.map_values(|s: String| s@) == apply_piece(
            old(stack)@.map_values(|s: String| s@),
            p@.subrange(from as int, to as int),
        ),
{
    let ghost piece = p@.subrange(from as int, to as int);
    let n = to - from;
    if n == 0 {
        return;
    }
    if n == 1 && p.get_char(from) == '.' {
        assert(piece =~= seq!['.']);
        return;
    }
    if n == 1 {
        assert(piece[0] != seq!['.'][0]);
    }
    if n == 2 && p.get_char(from) == '.' && p.get_char(from + 1) == '.' {
        assert(piece =~= seq!['.', '.']);
        if stack.len() > 0 {
            stack.pop();
            assert(stack@.map_values(|s: String| s@) =~= old(stack)@.map_values(|s: String| s@).drop_last());
        }
        return;
    }
    if n == 2 {
        assert(piece[0] != '.' || piece[1] != '.');
        assert(piece != seq!['.', '.']);
    }
    if n != 1 {
        assert(piece.len() != seq!['.'].len());
    }
    if n != 2 {
        assert(piece.len() != seq!['.', '.'].len());
    }
    assert(piece != seq!['.'] && piece != seq!['.', '.']);
    stack.push(String::from_str(p.substring_char(from, to)));
    assert(stack@.map_values(|s: String| s@) =~= old(stack)@.map_values(|s: String| s@).push(piece));
}

/// `path` with `.` pieces and empty pieces removed and each `..` taking away
/// the name before it; a leading `/` is kept.
pub fn normalize_path(path: &str) -> (r: String)
    ensures
        r@ == normalized(path@),
{
    let n = path.unicode_len();
    let mut stack: Vec<String> = Vec::new();
    let mut seg: usize = 0;
    let mut i: usize = 0;
    assert(path@.take(0) =~= Seq::<char>::empty());
    while i < n
        invariant
            n == path@.len(),
            seg <= i <= n,
            split_slash(path@.take(i as int)).len() >= 1,
            split_slash(path@.take(i as int)).last() == path@.subrange(seg as int, i as int),
            stack@.map_values(|s: String| s@) == resolve(
                split_slash(path@.take(i as int)).drop_last(),
            ),
        decreases n - i,
    {
        let ghost pre = split_slash(path@.take(i as int));
        assert(path@.take(i + 1).drop_last() =~= path@.take(i as int));
        let c = path.get_char(i);
        if c == '/' {
            push_piece(&mut stack, path, seg, i);
            assert(split_slash(path@.take(i + 1)) == pre.push(Seq::<char>::empty()));
            assert(split_slash(path@.take(i + 1)).drop_last() =~= pre);
            assert(pre =~= pre.drop_last().push(pre.last()));
            seg = i + 1;
        } else {
            assert(split_slash(path@.take(i + 1)).drop_last() =~= pre.drop_last());
            assert(path@.subrange(seg as int, i + 1) =~= path@.subrange(seg as int, i as int).push(c));
        }
        i = i + 1;
    }
    assert(path@.take(n as int) =~= path@);
    let ghost all = split_slash(path@);
    push_piece(&mut stack, path, seg, n);
    assert(all =~= all.drop_last().push(all.last()));
    let mut r = if n > 0 && path.get_char(0) == '/' {
        String::from_str("/")
    } else {
        String::from_str("")
    };
    proof {
        reveal_strlit("/");
        reveal_strlit("");
    }
    let ghost root = r@;
    let mut k: usize = 0;
    while k < stack.len()
        invariant
            k <= stack@.len(),
            r@ == root + join_slash(stack@.map_values(|s: String| s@).take(k as int)),
        decreases stack@.len() - k,
    {
        let ghost names = stack@.map_values(|s: String| s@);
        assert(names.take(k + 1).drop_last() =~= names.take(k as int));
        assert(names.take(k + 1).len() == k + 1);
        assert(names.take(k + 1)[k as int] == stack@[k as int]@);
        if k > 0 {
            r.append("/");
            proof {
                reveal_strlit("/");
            }
        }
        r.append(stack[k].as_str());
        assert(r@ =~= root + join_slash(names.take(k + 1)));
        k = k + 1;
    }
    assert(stack@.map_values(|s: String| s@).take(stack@.len() as int) =~= stack@.map_values(|s: String| s@));
    r
}

} // verus!
