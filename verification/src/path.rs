//! Unix paths as text, compared by whole components.

use crate::text::{chars_of, same};
use vstd::prelude::*;

verus! {

/// The pieces of `p` between slashes, empty pieces included.
pub open spec fn split_pieces(p: Seq<char>) -> Seq<Seq<char>>
    decreases p.len(),
{
    if p.len() == 0 {
        seq![Seq::<char>::empty()]
    } else {
        let before = split_pieces(p.drop_last());
        if p.last() == '/' {
            before.push(Seq::<char>::empty())
        } else {
            before.update(before.len() - 1, before.last().push(p.last()))
        }
    }
}

/// A piece that names something: neither empty nor a lone dot.
pub open spec fn names(piece: Seq<char>) -> bool {
    piece.len() > 0 && piece != seq!['.']
}

/// The pieces of a sequence that name something, in order.
pub open spec fn naming_pieces(pieces: Seq<Seq<char>>) -> Seq<Seq<char>>
    decreases pieces.len(),
{
    if pieces.len() == 0 {
        Seq::empty()
    } else {
        let before = naming_pieces(pieces.drop_last());
        if names(pieces.last()) {
            before.push(pieces.last())
        } else {
            before
        }
    }
}

/// A path that starts at the root directory.
pub open spec fn absolute(p: Seq<char>) -> bool {
    p.len() > 0 && p[0] == '/'
}

/// What stands before the naming pieces: the root directory, or a leading dot.
pub open spec fn anchor(p: Seq<char>) -> Seq<Seq<char>> {
    if absolute(p) {
        seq![seq!['/']]
    } else if split_pieces(p)[0] == seq!['.'] {
        seq![seq!['.']]
    } else {
        Seq::empty()
    }
}

/// The components of a path: repeated slashes, inner dots and a trailing slash
/// do not count; a leading dot of a relative path and every `..` do.
pub open spec fn components(p: Seq<char>) -> Seq<Seq<char>> {
    anchor(p) + naming_pieces(split_pieces(p))
}

/// `prefix` is an initial part of `s`.
pub open spec fn is_prefix(prefix: Seq<Seq<char>>, s: Seq<Seq<char>>) -> bool {
    prefix.len() <= s.len() && s.take(prefix.len() as int) == prefix
}

/// `p` is `base` or lies under it.
pub open spec fn under(p: Seq<char>, base: Seq<char>) -> bool {
    is_prefix(components(base), components(p))
}

/// The two paths have the same components.
pub open spec fn path_eq(a: Seq<char>, b: Seq<char>) -> bool {
    components(a) == components(b)
}

/// `name` is one of the components of `p`.
pub open spec fn has_component(p: Seq<char>, name: Seq<char>) -> bool {
    exists|k: int| 0 <= k < components(p).len() && #[trigger] components(p)[k] == name
}

/// `rel` resolved against `base`: itself when absolute, else appended after one slash.
pub open spec fn joined(base: Seq<char>, rel: Seq<char>) -> Seq<char> {
    if absolute(rel) {
        rel
    } else if base.len() == 0 || base.last() == '/' {
        base + rel
    } else {
        base.push('/') + rel
    }
}

/// Views of a vector of character vectors.
spec fn views(v: Seq<Vec<char>>) -> Seq<Seq<char>> {
    v.map_values(|x: Vec<char>| x@)
}

proof fn lemma_split_pieces_nonempty(p: Seq<char>)
    ensures
        split_pieces(p).len() > 0,
    decreases p.len(),
{
    if p.len() > 0 {
        lemma_split_pieces_nonempty(p.drop_last());
    }
}

fn char_vec_eq(a: &Vec<char>, b: &Vec<char>) -> (r: bool)
    ensures
        r == (a@ == b@),
{
    if a.len() != b.len() {
        return false;
    }
    let mut i: usize = 0;
    while i < a.len()
        invariant
            i <= a.len(),
            a.len() == b.len(),
            forall|j: int| 0 <= j < i ==> a@[j] == b@[j],
        decreases a.len() - i,
    {
        if a[i] != b[i] {
            return false;
        }
        i = i + 1;
    }
    assert(a@ =~= b@);
    true
}

fn is_dot(v: &Vec<char>) -> (r: bool)
    ensures
        r == (v@ == seq!['.']),
{
    let r = v.len() == 1 && v[0] == '.';
    assert(r ==> v@ =~= seq!['.']);
    r
}

/// The components of a path.
fn component_list(p: &str) -> (r: Vec<Vec<char>>)
    ensures
        views(r@) == components(p@),
{
    let cs = chars_of(p);
    let mut out: Vec<Vec<char>> = Vec::new();
    let mut cur: Vec<char> = Vec::new();
    let ghost mut done: Seq<Seq<char>> = Seq::empty();
    // Whether the first piece is complete, and a lone dot.
    let mut first_done = false;
    let mut leading_dot = false;
    let mut i: usize = 0;
    while i < cs.len()
        invariant
            i <= cs.len(),
            split_pieces(cs@.take(i as int)) == done.push(cur@),
            views(out@) == naming_pieces(done),
            first_done == (done.len() > 0),
            first_done ==> leading_dot == (done[0] == seq!['.']),
            !first_done ==> !leading_dot,
        decreases cs.len() - i,
    {
        let c = cs[i];
        assert(cs@.take(i + 1).drop_last() =~= cs@.take(i as int));
        assert(cs@.take(i + 1).last() == c);
        if c == '/' {
            let dot = is_dot(&cur);
            if !first_done {
                leading_dot = dot;
                first_done = true;
            }
            proof {
                let before = done.push(cur@);
                assert(before.drop_last() =~= done);
                assert(split_pieces(cs@.take(i + 1)) =~= before.push(Seq::empty()));
            }
            let ghost piece = cur@;
            let ghost old_out = out@;
            if cur.len() > 0 && !dot {
                out.push(cur);
                assert(views(out@) =~= views(old_out).push(piece));
            }
            proof {
                done = done.push(piece);
                assert(done.drop_last() =~= done.take(done.len() - 1));
            }
            cur = Vec::new();
            assert(cur@ =~= Seq::<char>::empty());
        } else {
            let ghost before = done.push(cur@);
            cur.push(c);
            proof {
                assert(before.update(before.len() - 1, before.last().push(c)) =~= done.push(cur@));
            }
        }
        i = i + 1;
    }
    assert(cs@.take(i as int) =~= p@);
    let dot = is_dot(&cur);
    if !first_done {
        leading_dot = dot;
    }
    let ghost pieces = done.push(cur@);
    proof {
        assert(pieces.drop_last() =~= done);
        assert(pieces[0] == (if done.len() > 0 { done[0] } else { cur@ }));
    }
    let ghost old_out = out@;
    let ghost piece = cur@;
    if cur.len() > 0 && !dot {
        out.push(cur);
        assert(views(out@) =~= views(old_out).push(piece));
    }
    assert(views(out@) == naming_pieces(split_pieces(p@)));
    let mut r: Vec<Vec<char>> = Vec::new();
    if cs.len() > 0 && cs[0] == '/' {
        let mut slash: Vec<char> = Vec::new();
        slash.push('/');
        assert(slash@ =~= seq!['/']);
        r.push(slash);
        assert(views(r@) =~= seq![seq!['/']]);
    } else if leading_dot {
        let mut d: Vec<char> = Vec::new();
        d.push('.');
        assert(d@ =~= seq!['.']);
        r.push(d);
        assert(views(r@) =~= seq![seq!['.']]);
    } else {
        assert(views(r@) =~= Seq::<Seq<char>>::empty());
    }
    let ghost head = r@;
    let ghost tail = out@;
    r.append(&mut out);
    assert(views(r@) =~= views(head) + views(tail));
    r
}

/// Whether `p` is `base` or lies under it, by whole components.
pub fn starts_with(p: &str, base: &str) -> (r: bool)
    ensures
        r == under(p@, base@),
{
    let ps = component_list(p);
    let bs = component_list(base);
    if bs.len() > ps.len() {
        assert(components(base@).len() == bs@.len());
        assert(components(p@).len() == ps@.len());
        return false;
    }
    let mut i: usize = 0;
    while i < bs.len()
        invariant
            i <= bs.len() <= ps.len(),
            views(ps@) == components(p@),
            views(bs@) == components(base@),
            forall|j: int| 0 <= j < i ==> (#[trigger] bs@[j])@ == ps@[j]@,
        decreases bs.len() - i,
    {
        if !char_vec_eq(&ps[i], &bs[i]) {
            assert(components(p@).take(bs@.len() as int)[i as int] == ps@[i as int]@);
            assert(components(base@)[i as int] == bs@[i as int]@);
            return false;
        }
        i = i + 1;
    }
    assert(components(p@).take(bs@.len() as int) =~= components(base@));
    true
}

/// Whether two paths have the same components.
pub fn same_path(a: &str, b: &str) -> (r: bool)
    ensures
        r == path_eq(a@, b@),
{
    let r = starts_with(a, b) && starts_with(b, a);
    proof {
        if r {
            assert(components(a@).take(components(b@).len() as int) =~= components(a@));
        }
        if path_eq(a@, b@) {
            assert(components(a@).take(components(b@).len() as int) =~= components(a@));
        }
    }
    r
}

/// Whether a path starts at the root directory.
pub fn is_absolute(p: &str) -> (r: bool)
    ensures
        r == absolute(p@),
{
    p.unicode_len() > 0 && p.get_char(0) == '/'
}

/// `rel` resolved against `base`.
pub fn join(base: &str, rel: &str) -> (r: String)
    ensures
        r@ == joined(base@, rel@),
{
    if is_absolute(rel) {
        return String::from_str(rel);
    }
    let n: usize = base.unicode_len();
    let mut r = String::from_str(base);
    if !(n == 0 || base.get_char(n - 1) == '/') {
        proof {
            reveal_strlit("/");
        }
        r.append("/");
        assert(r@ =~= base@.push('/'));
    }
    r.append(rel);
    r
}

/// `parts` after `start`, each behind a slash but for a first part at an empty start.
pub open spec fn append_parts(start: Seq<char>, parts: Seq<Seq<char>>) -> Seq<char>
    decreases parts.len(),
{
    if parts.len() == 0 {
        start
    } else {
        let front = append_parts(start, parts.drop_last());
        if front.len() == 0 || front == seq!['/'] {
            front + parts.last()
        } else {
            front.push('/') + parts.last()
        }
    }
}

/// A path written from its components alone.
pub open spec fn rendered(parts: Seq<Seq<char>>) -> Seq<char> {
    append_parts(Seq::empty(), parts)
}

/// The shortest text of the same components.
pub open spec fn normal(p: Seq<char>) -> Seq<char> {
    rendered(components(p))
}

/// A sequence of components as some path has them: each names something and
/// holds no slash, but for the root or a dot in front.
pub open spec fn valid_parts(parts: Seq<Seq<char>>) -> bool {
    &&& forall|i: int| 0 < i < parts.len() ==> plain_part(#[trigger] parts[i])
    &&& parts.len() > 0 ==> parts[0] == seq!['/'] || parts[0] == seq!['.'] || plain_part(parts[0])
}

/// A component that names something and holds no slash.
pub open spec fn plain_part(part: Seq<char>) -> bool {
    names(part) && forall|i: int| 0 <= i < part.len() ==> #[trigger] part[i] != '/'
}

proof fn lemma_pieces_hold_no_slash(p: Seq<char>)
    ensures
        forall|k: int, i: int|
            0 <= k < split_pieces(p).len() && 0 <= i < split_pieces(p)[k].len()
                ==> #[trigger] split_pieces(p)[k][i] != '/',
    decreases p.len(),
{
    if p.len() > 0 {
        let before = split_pieces(p.drop_last());
        lemma_pieces_hold_no_slash(p.drop_last());
        lemma_split_pieces_nonempty(p.drop_last());
        let after = split_pieces(p);
        assert forall|k: int, i: int| 0 <= k < after.len() && 0 <= i < after[k].len() implies
            #[trigger] after[k][i] != '/' by {
            if k < before.len() && i < before[k].len() {
                assert(before[k][i] != '/');
            }
        }
    }
}

proof fn lemma_naming_pieces_are_plain(pieces: Seq<Seq<char>>)
    requires
        forall|k: int, i: int|
            0 <= k < pieces.len() && 0 <= i < pieces[k].len() ==> #[trigger] pieces[k][i] != '/',
    ensures
        forall|k: int| 0 <= k < naming_pieces(pieces).len() ==> plain_part(
            #[trigger] naming_pieces(pieces)[k],
        ),
    decreases pieces.len(),
{
    if pieces.len() > 0 {
        let front = pieces.drop_last();
        assert forall|k: int, i: int| 0 <= k < front.len() && 0 <= i < front[k].len() implies
            #[trigger] front[k][i] != '/' by {
            assert(pieces[k][i] != '/');
        }
        lemma_naming_pieces_are_plain(front);
        let last = pieces[pieces.len() - 1];
        assert forall|i: int| 0 <= i < last.len() implies #[trigger] last[i] != '/' by {
            assert(pieces[pieces.len() - 1][i] != '/');
        }
        let before = naming_pieces(front);
        let after = naming_pieces(pieces);
        assert forall|k: int| 0 <= k < after.len() implies plain_part(#[trigger] after[k]) by {
            if k < before.len() {
                assert(after[k] == before[k]);
                assert(plain_part(before[k]));
            } else {
                assert(after[k] == last);
            }
        }
    }
}

/// The components of a path are valid.
proof fn lemma_components_are_valid(p: Seq<char>)
    ensures
        valid_parts(components(p)),
{
    lemma_pieces_hold_no_slash(p);
    lemma_naming_pieces_are_plain(split_pieces(p));
    let parts = components(p);
    let n = anchor(p).len();
    assert forall|i: int| 0 < i < parts.len() implies plain_part(#[trigger] parts[i]) by {
        assert(parts[i] == naming_pieces(split_pieces(p))[i - n]);
    }
    if parts.len() > 0 && n == 0 {
        assert(parts[0] == naming_pieces(split_pieces(p))[0]);
    }
}

/// A slash-free part grows the last piece.
proof fn lemma_split_append_part(p: Seq<char>, part: Seq<char>)
    requires
        forall|i: int| 0 <= i < part.len() ==> #[trigger] part[i] != '/',
    ensures
        split_pieces(p + part) == split_pieces(p).update(
            split_pieces(p).len() - 1,
            split_pieces(p).last() + part,
        ),
    decreases part.len(),
{
    lemma_split_pieces_nonempty(p);
    let base = split_pieces(p);
    if part.len() == 0 {
        assert(p + part =~= p);
        assert(base.last() + part =~= base.last());
        assert(base.update(base.len() - 1, base.last() + part) =~= base);
    } else {
        let front = part.drop_last();
        assert forall|i: int| 0 <= i < front.len() implies #[trigger] front[i] != '/' by {
            assert(part[i] != '/');
        }
        lemma_split_append_part(p, front);
        assert((p + part).drop_last() =~= p + front);
        assert(part[part.len() - 1] != '/');
        assert((p + part).last() == part.last());
        assert((base.last() + front).push(part.last()) =~= base.last() + part);
        assert(split_pieces(p + part) =~= base.update(base.len() - 1, base.last() + part));
    }
}

/// What a path written from valid components looks like.
proof fn lemma_append_parts(parts: Seq<Seq<char>>)
    requires
        valid_parts(parts),
    ensures
        components(rendered(parts)) == parts,
        parts.len() > 0 ==> rendered(parts).len() > 0,
        parts.len() > 0 ==> (parts[0] == seq!['/']) == absolute(rendered(parts)),
        parts.len() > 0 && rendered(parts) == seq!['/'] ==> parts == seq![seq!['/']],
        parts.len() > 0 && parts[0] != seq!['/'] ==> split_pieces(rendered(parts))[0] == parts[0],
    decreases parts.len(),
{
    reveal_with_fuel(append_parts, 2);
    if parts.len() == 0 {
        let none = Seq::<char>::empty();
        reveal_with_fuel(naming_pieces, 2);
        assert(split_pieces(rendered(parts)) == seq![none]);
        assert(seq![none].drop_last() =~= Seq::empty());
        assert(naming_pieces(seq![none]) =~= Seq::empty());
        assert(components(rendered(parts)) =~= parts);
    } else if parts.len() == 1 {
        reveal_with_fuel(naming_pieces, 2);
        let only = parts[0];
        assert(parts.drop_last() =~= Seq::empty());
        assert(rendered(parts) =~= only);
        if only == seq!['/'] {
            let none = Seq::<char>::empty();
            assert(only.drop_last() =~= none);
            assert(split_pieces(none) == seq![none]);
            assert(split_pieces(only) =~= seq![none, none]);
            reveal_with_fuel(naming_pieces, 3);
            assert(seq![none, none].drop_last() =~= seq![none]);
            assert(naming_pieces(split_pieces(only)) =~= Seq::empty());
            assert(components(only) =~= parts);
            assert(parts =~= seq![seq!['/']]);
        } else {
            if only == seq!['.'] {
                assert forall|i: int| 0 <= i < only.len() implies #[trigger] only[i] != '/' by {}
            }
            lemma_split_append_part(Seq::empty(), only);
            assert(Seq::<char>::empty() + only =~= only);
            let pieces = split_pieces(only);
            assert(pieces =~= seq![only]);
            assert(pieces.drop_last() =~= Seq::empty());
            assert(!absolute(only));
            assert(components(only) =~= parts);
        }
    } else {
        let front = parts.drop_last();
        let last = parts.last();
        assert(valid_parts(front)) by {
            assert forall|i: int| 0 < i < front.len() implies plain_part(#[trigger] front[i]) by {
                assert(plain_part(parts[i]));
            }
        }
        assert(plain_part(parts[parts.len() - 1]));
        lemma_append_parts(front);
        let text = rendered(front);
        let whole = rendered(parts);
        lemma_split_pieces_nonempty(text);
        let ps = split_pieces(text);
        if text == seq!['/'] {
            let none = Seq::<char>::empty();
            assert(text.drop_last() =~= none);
            assert(split_pieces(none) == seq![none]);
            assert(ps =~= seq![none, none]);
            lemma_split_append_part(text, last);
            assert(none + last =~= last);
            assert(split_pieces(whole) =~= seq![none, last]);
            assert(seq![none, last].drop_last() =~= seq![none]);
            assert(seq![none].drop_last() =~= Seq::empty());
            reveal_with_fuel(naming_pieces, 3);
            assert(naming_pieces(split_pieces(whole)) =~= seq![last]);
            assert(absolute(whole));
            assert(components(whole) =~= parts);
            assert(whole.len() > 1);
        } else {
            let slashed = text.push('/');
            assert(slashed.drop_last() =~= text);
            let sp = split_pieces(slashed);
            assert(sp == ps.push(Seq::empty()));
            lemma_split_append_part(slashed, last);
            let wp = split_pieces(whole);
            assert(Seq::<char>::empty() + last =~= last);
            assert(wp =~= ps.push(last));
            assert(wp.drop_last() =~= ps);
            assert(naming_pieces(wp) == naming_pieces(ps).push(last));
            assert(wp[0] == ps[0]);
            assert(whole[0] == text[0]);
            assert(anchor(whole) == anchor(text));
            assert(components(whole) =~= components(text).push(last));
            assert(components(whole) =~= parts);
            assert(whole.len() > 1);
        }
    }
}

/// The shortest text of a path has the path's components.
pub proof fn law_normal_text_is_the_same_path(p: Seq<char>)
    ensures
        path_eq(normal(p), p),
{
    lemma_components_are_valid(p);
    lemma_append_parts(components(p));
}

/// Two paths have the same shortest text exactly when they are the same path.
pub proof fn law_normal_text_identifies_the_path(a: Seq<char>, b: Seq<char>)
    ensures
        (normal(a) == normal(b)) == path_eq(a, b),
{
    law_normal_text_is_the_same_path(a);
    law_normal_text_is_the_same_path(b);
}

fn render(parts: &Vec<Vec<char>>) -> (r: Vec<char>)
    ensures
        r@ == rendered(views(parts@)),
{
    let ghost all = views(parts@);
    let mut r: Vec<char> = Vec::new();
    assert(all.take(0) =~= Seq::empty());
    assert(r@ =~= rendered(all.take(0)));
    let mut i: usize = 0;
    while i < parts.len()
        invariant
            i <= parts@.len(),
            all == views(parts@),
            r@ == rendered(all.take(i as int)),
        decreases parts.len() - i,
    {
        let ghost before = all.take(i as int);
        let ghost after = all.take(i + 1);
        assert(after.drop_last() =~= before);
        assert(after.last() == parts@[i as int]@);
        let bare = r.len() == 0 || (r.len() == 1 && r[0] == '/');
        assert(bare == (r@.len() == 0 || r@ == seq!['/'])) by {
            if r@.len() == 1 && r@[0] == '/' {
                assert(r@ =~= seq!['/']);
            }
        }
        if !bare {
            r.push('/');
        }
        let ghost head = r@;
        let mut j: usize = 0;
        while j < parts[i].len()
            invariant
                i < parts@.len(),
                j <= parts@[i as int]@.len(),
                r@ == head + parts@[i as int]@.take(j as int),
            decreases parts@[i as int]@.len() - j,
        {
            r.push(parts[i][j]);
            assert(r@ =~= head + parts@[i as int]@.take(j + 1));
            j = j + 1;
        }
        assert(parts@[i as int]@.take(j as int) =~= parts@[i as int]@);
        i = i + 1;
    }
    assert(all.take(i as int) =~= all);
    r
}

/// The shortest text of the same path.
pub fn normalized(p: &str) -> (r: String)
    ensures
        r@ == normal(p@),
{
    let parts = component_list(p);
    let cs = render(&parts);
    text_of(&cs)
}

/// Whether `name` is one of the components of `p`.
pub fn contains_component(p: &str, name: &str) -> (r: bool)
    ensures
        r == has_component(p@, name@),
{
    let parts = component_list(p);
    let wanted = chars_of(name);
    let mut i: usize = 0;
    while i < parts.len()
        invariant
            i <= parts@.len(),
            views(parts@) == components(p@),
            wanted@ == name@,
            forall|k: int| 0 <= k < i ==> #[trigger] components(p@)[k] != name@,
        decreases parts.len() - i,
    {
        assert(views(parts@)[i as int] == parts@[i as int]@);
        if char_vec_eq(&parts[i], &wanted) {
            assert(components(p@)[i as int] == name@);
            return true;
        }
        i = i + 1;
    }
    false
}

/// A text with one character in the place of another.
pub open spec fn swapped(s: Seq<char>, from: char, to: char) -> Seq<char> {
    s.map_values(
        |c: char|
            if c == from {
                to
            } else {
                c
            },
    )
}

/// The text with every `from` replaced by `to`.
pub fn swap_char(s: &str, from: char, to: char) -> (r: String)
    ensures
        r@ == swapped(s@, from, to),
{
    let cs = chars_of(s);
    let mut r = String::new();
    let mut i: usize = 0;
    while i < cs.len()
        invariant
            i <= cs@.len(),
            cs@ == s@,
            r@ == swapped(s@.take(i as int), from, to),
        decreases cs.len() - i,
    {
        let c = cs[i];
        push_char(
            &mut r,
            if c == from {
                to
            } else {
                c
            },
        );
        assert(r@ =~= swapped(s@.take(i + 1), from, to));
        i = i + 1;
    }
    assert(s@.take(i as int) =~= s@);
    r
}

/// The text with these characters.
fn text_of(cs: &Vec<char>) -> (r: String)
    ensures
        r@ == cs@,
{
    assert(cs@.subrange(0, cs@.len() as int) =~= cs@);
    text_between(cs, 0, cs.len())
}

/// The text with these characters, from one position to another.
fn text_between(cs: &Vec<char>, from: usize, to: usize) -> (r: String)
    requires
        from <= to <= cs@.len(),
    ensures
        r@ == cs@.subrange(from as int, to as int),
{
    let mut r = String::new();
    let mut i: usize = from;
    while i < to
        invariant
            from <= i <= to <= cs@.len(),
            r@ == cs@.subrange(from as int, i as int),
        decreases to - i,
    {
        push_char(&mut r, cs[i]);
        assert(cs@.subrange(from as int, i + 1) =~= cs@.subrange(from as int, i as int).push(
            cs@[i as int],
        ));
        i = i + 1;
    }
    r
}

/// `std`'s `String::push`, which appends one character.
#[verifier::external_body]
fn push_char(s: &mut String, c: char)
    ensures
        final(s)@ == old(s)@.push(c),
{
    s.push(c);
}

/// A text behind which a component can begin: none, or one that ends in a slash.
pub open spec fn at_boundary(p: Seq<char>) -> bool {
    p.len() == 0 || p.last() == '/'
}

/// A path without the slashes and dots at its end that do not count.
pub open spec fn trimmed(p: Seq<char>) -> Seq<char>
    decreases p.len(),
{
    if p.len() > 0 && path_eq(p.drop_last(), p) {
        trimmed(p.drop_last())
    } else {
        p
    }
}

/// The length of the longest start of `p` that is the path `base` and behind
/// which a component can begin.
pub open spec fn start_len(p: Seq<char>, base: Seq<char>) -> nat
    decreases p.len(),
{
    if p.len() == 0 || (at_boundary(p) && path_eq(p, base)) {
        p.len()
    } else {
        start_len(p.drop_last(), base)
    }
}

/// What is left of `p` below `base`: its text from the first component below
/// `base` to the end of the last.
pub open spec fn rest_below(p: Seq<char>, base: Seq<char>) -> Seq<char> {
    if path_eq(p, base) {
        Seq::empty()
    } else {
        trimmed(p).skip(start_len(trimmed(p), base) as int)
    }
}

/// What is left of `p` below `base`, where `p` lies under it.
pub fn strip_prefix(p: &str, base: &str) -> (r: Option<String>)
    ensures
        match r {
            Some(rest) => under(p@, base@) && rest@ == rest_below(p@, base@),
            None => !under(p@, base@),
        },
{
    if !starts_with(p, base) {
        return None;
    }
    if same_path(p, base) {
        return Some(String::new());
    }
    let cs = chars_of(p);
    let mut end: usize = cs.len();
    let mut counts = false;
    assert(p@.take(end as int) =~= p@);
    while end > 0 && !counts
        invariant
            end <= cs@.len(),
            cs@ == p@,
            path_eq(p@.take(end as int), p@),
            trimmed(p@.take(end as int)) == trimmed(p@),
            counts ==> trimmed(p@) == p@.take(end as int),
        decreases
                end,
                if counts {
                    0int
                } else {
                    1int
                },
    {
        let shorter = text_between(&cs, 0, end - 1);
        assert(shorter@ =~= p@.take(end as int).drop_last());
        assert(shorter@ =~= p@.take(end - 1));
        if same_path(shorter.as_str(), p) {
            end = end - 1;
        } else {
            counts = true;
        }
    }
    let ghost t = p@.take(end as int);
    assert(t == trimmed(p@));
    let mut from: usize = end;
    let mut found = false;
    assert(t.take(from as int) =~= t);
    while from > 0 && !found
        invariant
            from <= end <= cs@.len(),
            cs@ == p@,
            t == p@.take(end as int),
            start_len(t.take(from as int), base@) == start_len(t, base@),
            found ==> start_len(t, base@) == from,
        decreases
                from,
                if found {
                    0int
                } else {
                    1int
                },
    {
        let start = text_between(&cs, 0, from);
        assert(start@ =~= t.take(from as int));
        if cs[from - 1] == '/' && same_path(start.as_str(), base) {
            found = true;
        } else {
            assert(t.take(from as int).drop_last() =~= t.take(from - 1));
            from = from - 1;
        }
    }
    assert(p@.subrange(from as int, end as int) =~= t.skip(from as int));
    Some(text_between(&cs, from, end))
}

/// The number of bytes of a path's text.
pub open spec fn byte_len(p: Seq<char>) -> nat {
    vstd::utf8::encode_utf8(p).len()
}

/// The number of bytes of a path's text.
pub fn text_len(p: &str) -> (n: usize)
    ensures
        n == byte_len(p@),
{
    p.as_bytes().len()
}

/// A text has bytes if and only if it has characters.
pub proof fn lemma_bytes_iff_chars(s: Seq<char>)
    ensures
        (byte_len(s) > 0) == (s.len() > 0),
{
    if s.len() > 0 {
        vstd::utf8::encode_utf8_decode_utf8(s);
        if byte_len(s) == 0 {
            assert(vstd::utf8::decode_utf8(vstd::utf8::encode_utf8(s)).len() == 0);
        }
    }
}

/// Every path lies under itself.
pub proof fn law_under_reflexive(p: Seq<char>)
    ensures
        under(p, p),
{
    assert(components(p).take(components(p).len() as int) =~= components(p));
}

/// What lies under a directory lies under every directory that holds it.
pub proof fn law_under_transitive(p: Seq<char>, q: Seq<char>, r: Seq<char>)
    requires
        under(p, q),
        under(q, r),
    ensures
        under(p, r),
{
    let n = components(r).len() as int;
    assert(components(p).take(n) =~= components(p).take(components(q).len() as int).take(n));
}

/// Two directories that hold the same path are comparable: one lies under the other.
pub proof fn law_ancestors_form_a_chain(p: Seq<char>, a: Seq<char>, b: Seq<char>)
    requires
        under(p, a),
        under(p, b),
        components(a).len() <= components(b).len(),
    ensures
        under(b, a),
{
    let n = components(a).len() as int;
    assert(components(b).take(n) =~= components(p).take(components(b).len() as int).take(n));
    assert(components(p).take(components(b).len() as int).take(n) =~= components(p).take(n));
}

/// Paths that lie under each other have the same components.
pub proof fn law_under_antisymmetric(a: Seq<char>, b: Seq<char>)
    requires
        under(a, b),
        under(b, a),
    ensures
        path_eq(a, b),
{
    assert(components(a).take(components(b).len() as int) =~= components(a));
}

/// Appending text to a path: the pieces up to the last keep their content.
proof fn lemma_split_extend(p: Seq<char>, ext: Seq<char>)
    requires
        ext.len() > 0,
        ext[0] != '/',
    ensures
        split_pieces(p + ext).len() >= split_pieces(p).len(),
        split_pieces(p + ext).take(split_pieces(p).len() - 1) == split_pieces(p).drop_last(),
        split_pieces(p + ext)[split_pieces(p).len() - 1].len() > split_pieces(p).last().len(),
    decreases ext.len(),
{
    lemma_split_pieces_nonempty(p);
    let n = split_pieces(p).len() as int;
    let whole = p + ext;
    assert(whole.drop_last() =~= p + ext.drop_last());
    assert(whole.last() == ext.last());
    lemma_split_pieces_nonempty(whole.drop_last());
    if ext.len() == 1 {
        assert(whole.drop_last() =~= p);
        assert(split_pieces(whole).take(n - 1) =~= split_pieces(p).drop_last());
    } else {
        lemma_split_extend(p, ext.drop_last());
        let before = split_pieces(whole.drop_last());
        assert(split_pieces(whole).take(n - 1) =~= before.take(n - 1));
    }
}

/// Naming pieces of an initial part are an initial part of the naming pieces.
proof fn lemma_naming_prefix(pieces: Seq<Seq<char>>, n: int)
    requires
        0 <= n <= pieces.len(),
    ensures
        is_prefix(naming_pieces(pieces.take(n)), naming_pieces(pieces)),
    decreases pieces.len(),
{
    let part = naming_pieces(pieces.take(n));
    if n == pieces.len() {
        assert(pieces.take(n) =~= pieces);
        assert(naming_pieces(pieces).take(part.len() as int) =~= part);
    } else {
        lemma_naming_prefix(pieces.drop_last(), n);
        assert(pieces.drop_last().take(n) =~= pieces.take(n));
        let before = naming_pieces(pieces.drop_last());
        assert(naming_pieces(pieces).take(part.len() as int) =~= before.take(part.len() as int));
    }
}

/// Behind a slash the pieces of what follows begin anew.
proof fn lemma_split_behind_slash(x: Seq<char>, y: Seq<char>)
    requires
        x.len() > 0,
        x.last() == '/',
    ensures
        split_pieces(x + y) == split_pieces(x).drop_last() + split_pieces(y),
    decreases y.len(),
{
    let whole = x + y;
    lemma_split_pieces_nonempty(x.drop_last());
    if y.len() == 0 {
        assert(whole =~= x);
        assert(split_pieces(x).drop_last() + split_pieces(y) =~= split_pieces(x));
    } else {
        assert(whole.drop_last() =~= x + y.drop_last());
        assert(whole.last() == y.last());
        lemma_split_behind_slash(x, y.drop_last());
        lemma_split_pieces_nonempty(y.drop_last());
        assert(split_pieces(whole) =~= split_pieces(x).drop_last() + split_pieces(y));
    }
}

proof fn lemma_naming_concat(a: Seq<Seq<char>>, b: Seq<Seq<char>>)
    ensures
        naming_pieces(a + b) == naming_pieces(a) + naming_pieces(b),
    decreases b.len(),
{
    if b.len() == 0 {
        assert(a + b =~= a);
        assert(naming_pieces(a) + naming_pieces(b) =~= naming_pieces(a));
    } else {
        assert((a + b).drop_last() =~= a + b.drop_last());
        lemma_naming_concat(a, b.drop_last());
        assert(naming_pieces(a + b) =~= naming_pieces(a) + naming_pieces(b));
    }
}

/// The first piece is empty exactly where a path has no text or starts at the root.
proof fn lemma_first_piece(p: Seq<char>)
    ensures
        split_pieces(p).len() > 0,
        absolute(p) ==> split_pieces(p).len() > 1,
        (split_pieces(p)[0].len() == 0) == (p.len() == 0 || absolute(p)),
    decreases p.len(),
{
    if p.len() > 0 {
        lemma_first_piece(p.drop_last());
        if p.len() == 1 {
            assert(split_pieces(p.drop_last()) == seq![Seq::<char>::empty()]);
        }
    }
}

/// A path with some text has a component.
proof fn lemma_text_has_components(p: Seq<char>)
    requires
        p.len() > 0,
    ensures
        components(p).len() > 0,
{
    lemma_first_piece(p);
    let pieces = split_pieces(p);
    if !absolute(p) && pieces[0] != seq!['.'] {
        lemma_naming_prefix(pieces, 1);
        reveal_with_fuel(naming_pieces, 2);
        assert(pieces.take(1).drop_last() =~= Seq::empty());
        assert(naming_pieces(pieces.take(1)).len() == 1);
    }
}

/// A path without text has no components.
proof fn lemma_no_text_no_components()
    ensures
        components(Seq::<char>::empty()) == Seq::<Seq<char>>::empty(),
{
    lemma_append_parts(Seq::empty());
}

/// A slash at the end of a path does not count.
proof fn lemma_trailing_slash(p: Seq<char>)
    requires
        p.len() > 0,
    ensures
        path_eq(p.push('/'), p),
{
    lemma_split_pieces_nonempty(p);
    let slashed = p.push('/');
    assert(slashed.drop_last() =~= p);
    assert(split_pieces(slashed).drop_last() =~= split_pieces(p));
}

/// Behind a slash, text that begins with a name adds its components.
proof fn lemma_components_behind_slash(x: Seq<char>, y: Seq<char>)
    requires
        x.len() > 0,
        x.last() == '/',
        names(split_pieces(y)[0]),
    ensures
        components(x + y) == components(x) + components(y),
{
    let head = split_pieces(x).drop_last();
    lemma_first_piece(x);
    lemma_first_piece(y);
    lemma_split_pieces_nonempty(x.drop_last());
    lemma_split_behind_slash(x, y);
    lemma_naming_concat(head, split_pieces(y));
    assert(split_pieces(x) == split_pieces(x.drop_last()).push(Seq::empty()));
    assert(naming_pieces(split_pieces(x)) == naming_pieces(head));
    assert((x + y)[0] == x[0]);
    assert(split_pieces(x + y)[0] == split_pieces(x)[0]);
    assert(components(x + y) =~= components(x) + components(y));
}

/// Where the last piece of a text stands.
proof fn lemma_last_piece(t: Seq<char>) -> (u: Seq<char>)
    ensures
        t == u + split_pieces(t).last(),
        at_boundary(u),
        split_pieces(u) == split_pieces(t).drop_last().push(Seq::empty()),
    decreases t.len(),
{
    lemma_split_pieces_nonempty(t);
    if t.len() == 0 {
        assert(t + split_pieces(t).last() =~= t);
        assert(split_pieces(t) =~= split_pieces(t).drop_last().push(Seq::empty()));
        t
    } else if t.last() == '/' {
        assert(t + split_pieces(t).last() =~= t);
        assert(split_pieces(t) =~= split_pieces(t).drop_last().push(Seq::empty()));
        t
    } else {
        let d = t.drop_last();
        lemma_split_pieces_nonempty(d);
        let u = lemma_last_piece(d);
        assert(t =~= d.push(t.last()));
        assert(d.push(t.last()) =~= u + split_pieces(d).last().push(t.last()));
        assert(split_pieces(t).drop_last() =~= split_pieces(d).drop_last());
        u
    }
}

/// Text without a slash is one piece.
proof fn lemma_one_piece(q: Seq<char>)
    requires
        forall|i: int| 0 <= i < q.len() ==> #[trigger] q[i] != '/',
    ensures
        split_pieces(q) == seq![q],
        names(q) ==> components(q) == seq![q],
        components(q).len() <= 1,
{
    let none = Seq::<char>::empty();
    lemma_split_append_part(none, q);
    assert(none + q =~= q);
    assert(split_pieces(q) =~= seq![q]);
    reveal_with_fuel(naming_pieces, 2);
    assert(seq![q].drop_last() =~= Seq::empty());
    if names(q) {
        assert(components(q) =~= seq![q]);
    }
}

/// Text without a slash holds no place behind which a component can begin.
proof fn lemma_start_len_before_piece(u: Seq<char>, q: Seq<char>, base: Seq<char>)
    requires
        forall|i: int| 0 <= i < q.len() ==> #[trigger] q[i] != '/',
    ensures
        start_len(u + q, base) == start_len(u, base),
    decreases q.len(),
{
    if q.len() == 0 {
        assert(u + q =~= u);
    } else {
        let front = q.drop_last();
        assert forall|i: int| 0 <= i < front.len() implies #[trigger] front[i] != '/' by {
            assert(q[i] != '/');
        }
        assert(q[q.len() - 1] != '/');
        assert((u + q).last() == q[q.len() - 1]);
        assert((u + q).drop_last() =~= u + front);
        lemma_start_len_before_piece(u, front, base);
    }
}

/// Where a path goes on below `base`, it does so with a name behind a start that
/// is `base`.
proof fn lemma_start(t: Seq<char>, base: Seq<char>)
    requires
        under(t, base),
        !path_eq(t, base),
    ensures
        start_len(t, base) <= t.len(),
        at_boundary(t.take(start_len(t, base) as int)),
        path_eq(t.take(start_len(t, base) as int), base),
        start_len(t, base) > 0 ==> names(split_pieces(t.skip(start_len(t, base) as int))[0]),
    decreases t.len(),
{
    lemma_no_text_no_components();
    let k = components(base);
    let all = components(t);
    assert(k.len() < all.len()) by {
        if k.len() == all.len() {
            assert(all.take(k.len() as int) =~= all);
        }
    }
    if t.len() == 0 {
        assert(t =~= Seq::empty());
        assert(false);
    }
    let d = t.drop_last();
    let c = t.last();
    assert(d.push(c) =~= t);
    let n = start_len(t, base) as int;
    assert(n == start_len(d, base));
    if under(d, base) && !path_eq(d, base) {
        lemma_start(d, base);
        assert(t.take(n) =~= d.take(n));
        if n > 0 {
            let z = d.skip(n);
            assert(t.skip(n) =~= z.push(c));
            assert(z.push(c).drop_last() =~= z);
            lemma_split_pieces_nonempty(z);
            let first = split_pieces(z)[0];
            assert(names(first));
            assert(names(first.push(c)));
            assert(split_pieces(z.push(c))[0] == first || split_pieces(z.push(c))[0] == first.push(
                c,
            ));
        }
    } else {
        lemma_pieces_hold_no_slash(t);
        lemma_split_pieces_nonempty(t);
        let pieces = split_pieces(t);
        let q = pieces.last();
        let u = lemma_last_piece(t);
        assert forall|i: int| 0 <= i < q.len() implies #[trigger] q[i] != '/' by {
            assert(pieces[pieces.len() - 1][i] != '/');
        }
        if q.len() == 0 {
            assert(u =~= t);
            if d.len() > 0 {
                lemma_trailing_slash(d);
                assert(false);
            }
            assert(d =~= Seq::empty());
            assert(t.take(0) =~= Seq::empty());
            assert(n == 0);
            assert(split_pieces(d) == seq![Seq::<char>::empty()]);
            reveal_with_fuel(naming_pieces, 3);
            assert(pieces =~= seq![Seq::<char>::empty(), Seq::<char>::empty()]);
            assert(pieces.drop_last() =~= seq![Seq::<char>::empty()]);
            assert(pieces.drop_last().drop_last() =~= Seq::empty());
            assert(all =~= seq![seq!['/']]);
            assert(k =~= Seq::empty());
        } else {
            lemma_start_len_before_piece(u, q, base);
            lemma_one_piece(q);
            if u.len() == 0 {
                assert(t =~= q);
                assert(t.take(0) =~= Seq::empty());
                assert(n == 0);
                assert(k =~= Seq::empty());
            } else {
                let front = q.drop_last();
                assert forall|i: int| 0 <= i < front.len() implies #[trigger] front[i] != '/' by {
                    assert(q[i] != '/');
                }
                assert(d =~= u + front);
                lemma_one_piece(front);
                let ku = components(u);
                if names(front) {
                    lemma_components_behind_slash(u, front);
                    assert(components(d) =~= ku.push(front));
                } else {
                    lemma_dot_behind_slash(u, front);
                }
                if !names(q) {
                    lemma_dot_behind_slash(u, q);
                    assert(front.len() == 0);
                    assert(false);
                }
                lemma_components_behind_slash(u, q);
                assert(all =~= ku.push(q));
                if k.len() < ku.len() {
                    assert(components(d).take(k.len() as int) =~= all.take(k.len() as int));
                    assert(false);
                }
                assert(all.take(k.len() as int) =~= ku);
                assert(t.take(u.len() as int) =~= u);
                assert(t.skip(u.len() as int) =~= q);
                assert(n == u.len());
                assert(names(split_pieces(q)[0]));
            }
        }
    }
}

/// Behind a slash, a lone dot or nothing adds no component.
proof fn lemma_dot_behind_slash(x: Seq<char>, q: Seq<char>)
    requires
        x.len() > 0,
        x.last() == '/',
        forall|i: int| 0 <= i < q.len() ==> #[trigger] q[i] != '/',
        !names(q),
    ensures
        path_eq(x + q, x),
{
    lemma_split_pieces_nonempty(x.drop_last());
    lemma_first_piece(x);
    lemma_split_append_part(x, q);
    let none = Seq::<char>::empty();
    assert(none + q =~= q);
    let pieces = split_pieces(x + q);
    assert(pieces.drop_last() =~= split_pieces(x).drop_last());
    assert(pieces.last() == q);
    assert((x + q)[0] == x[0]);
}

proof fn lemma_trimmed_is_the_same_path(p: Seq<char>)
    ensures
        path_eq(trimmed(p), p),
    decreases p.len(),
{
    if p.len() > 0 && path_eq(p.drop_last(), p) {
        lemma_trimmed_is_the_same_path(p.drop_last());
    }
}

/// What is left of a path below a directory has the components that follow those
/// of the directory.
pub proof fn law_rest_has_the_remaining_components(p: Seq<char>, base: Seq<char>)
    requires
        under(p, base),
    ensures
        components(rest_below(p, base)) == components(p).skip(components(base).len() as int),
{
    lemma_no_text_no_components();
    let k = components(base).len() as int;
    if path_eq(p, base) {
        assert(components(p).skip(k) =~= Seq::empty());
    } else {
        let t = trimmed(p);
        lemma_trimmed_is_the_same_path(p);
        lemma_start(t, base);
        let n = start_len(t, base) as int;
        let x = t.take(n);
        let y = t.skip(n);
        assert(t =~= x + y);
        if n == 0 {
            assert(x =~= Seq::empty());
            assert(y =~= t);
            assert(components(p).skip(0) =~= components(p));
        } else {
            lemma_components_behind_slash(x, y);
            assert(components(p).skip(k) =~= components(y));
        }
    }
}

/// What is left of a path below a directory, joined to the directory, is the path.
pub proof fn law_rest_joins_back(p: Seq<char>, base: Seq<char>)
    requires
        under(p, base),
    ensures
        path_eq(joined(base, rest_below(p, base)), p),
{
    lemma_no_text_no_components();
    law_rest_has_the_remaining_components(p, base);
    let rest = rest_below(p, base);
    if base.len() > 0 {
        lemma_text_has_components(base);
        lemma_trailing_slash(base);
    }
    let head = if base.len() == 0 || base.last() == '/' {
        base
    } else {
        base.push('/')
    };
    if path_eq(p, base) {
        assert(joined(base, rest) =~= head);
    } else {
        let t = trimmed(p);
        lemma_trimmed_is_the_same_path(p);
        lemma_start(t, base);
        let n = start_len(t, base) as int;
        if base.len() == 0 {
            assert(base =~= Seq::empty());
            if n > 0 {
                lemma_text_has_components(t.take(n));
            }
            assert(rest =~= t);
            assert(joined(base, rest) =~= t);
        } else {
            if n == 0 {
                assert(t.take(0) =~= Seq::empty());
            }
            lemma_first_piece(rest);
            lemma_components_behind_slash(head, rest);
            let k = components(base).len() as int;
            assert(components(p) =~= components(p).take(k) + components(p).skip(k));
        }
    }
}

/// A longer name is another name: extending the last component of an absolute
/// path never gives a path under it.
pub proof fn law_component_boundary(base: Seq<char>, ext: Seq<char>)
    requires
        absolute(base),
        names(split_pieces(base).last()),
        ext.len() > 0,
        ext[0] != '/',
    ensures
        !under(base + ext, base),
{
    lemma_split_pieces_nonempty(base);
    lemma_split_extend(base, ext);
    let whole = base + ext;
    assert(absolute(whole));
    let ps = split_pieces(base);
    let ws = split_pieces(whole);
    let n = ps.len() as int;
    let kept = naming_pieces(ps.drop_last());
    assert(naming_pieces(ps) == kept.push(ps.last()));
    assert(ws.take(n).drop_last() =~= ps.drop_last());
    assert(ws.take(n).last() == ws[n - 1]);
    assert(ws[n - 1] != ps.last());
    lemma_naming_prefix(ws, n);
    lemma_naming_prefix(ws, n - 1);
    if under(whole, base) {
        let k = kept.len() as int;
        assert(components(base)[k + 1] == ps.last());
        assert(components(whole).take(components(base).len() as int)[k + 1] == ps.last());
        assert(components(whole)[k + 1] == naming_pieces(ws)[k]);
        if names(ws[n - 1]) {
            assert(naming_pieces(ws.take(n)) == kept.push(ws[n - 1]));
            assert(naming_pieces(ws).take(k + 1)[k] == ws[n - 1]);
            assert(naming_pieces(ws)[k] == ws[n - 1]);
        } else {
            assert(ws[n - 1] == seq!['.']);
            assert(ps.last().len() == 0);
        }
        assert(false);
    }
}

/// Where the extension of a file's name starts: the last dot that is not the
/// first character, or -1.
pub open spec fn last_dot(name: Seq<char>) -> int
    decreases name.len(),
{
    if name.len() <= 1 {
        -1
    } else if name.last() == '.' {
        name.len() - 1
    } else {
        last_dot(name.drop_last())
    }
}

/// The name of a parent directory.
pub open spec fn is_parent_name(name: Seq<char>) -> bool {
    name.len() == 2 && name[0] == '.' && name[1] == '.'
}

/// The extension of a file's name.
pub open spec fn name_extension(name: Seq<char>) -> Option<Seq<char>> {
    if is_parent_name(name) || last_dot(name) < 0 {
        None
    } else {
        Some(name.skip(last_dot(name) + 1))
    }
}

/// A file's name without its extension.
pub open spec fn name_stem(name: Seq<char>) -> Seq<char> {
    if is_parent_name(name) || last_dot(name) < 0 {
        name
    } else {
        name.take(last_dot(name))
    }
}

/// The stem of a file's name where it has the extension `ext`.
pub fn stem_with_extension(name: &str, ext: &str) -> (r: Option<String>)
    ensures
        match r {
            Some(stem) => name_extension(name@) == Some(ext@) && stem@ == name_stem(name@),
            None => name_extension(name@) != Some(ext@),
        },
{
    let chars = chars_of(name);
    let n: usize = chars.len();
    let mut end: usize = n;
    assert(chars@.take(n as int) =~= chars@);
    while end > 1 && chars[end - 1] != '.'
        invariant
            end <= n,
            n == chars@.len(),
            last_dot(chars@) == last_dot(chars@.take(end as int)),
        decreases end,
    {
        assert(chars@.take(end as int).drop_last() =~= chars@.take(end - 1));
        end = end - 1;
    }
    if end <= 1 || (n == 2 && chars[0] == '.' && chars[1] == '.') {
        return None;
    }
    proof {
        assert(last_dot(chars@) == end - 1);
    }
    let found = text_between(&chars, end, n);
    assert(chars@.subrange(end as int, n as int) =~= name@.skip(end as int));
    assert(chars@.subrange(0, end - 1) =~= name@.take(end - 1));
    if !same(found.as_str(), ext) {
        return None;
    }
    Some(text_between(&chars, 0, end - 1))
}

/// A relative path that begins with a name lies under the directory that it is
/// joined to, and an absolute path stays what it is.
pub proof fn law_joined_paths_lie_under(base: Seq<char>, rel: Seq<char>)
    ensures
        rel.len() > 0 && rel[0] == '/' ==> joined(base, rel) == rel,
        base.len() > 0 && names(split_pieces(rel)[0]) ==> under(joined(base, rel), base)
            && components(joined(base, rel)) == components(base) + components(rel),
{
    lemma_first_piece(rel);
    if base.len() > 0 && names(split_pieces(rel)[0]) {
        lemma_trailing_slash(base);
        let head = if base.last() == '/' {
            base
        } else {
            base.push('/')
        };
        lemma_components_behind_slash(head, rel);
        assert(joined(base, rel) == head + rel);
        assert((components(base) + components(rel)).take(components(base).len() as int)
            =~= components(base));
    }
}

/// A file's name is its stem, a dot and its extension; a name without a dot behind
/// its first character has no extension.
pub proof fn law_names_have_stems_and_extensions(stem: Seq<char>, ext: Seq<char>)
    requires
        stem.len() > 0,
        forall|i: int| 0 <= i < ext.len() ==> #[trigger] ext[i] != '.',
        !(stem == seq!['.'] && ext.len() == 0),
    ensures
        name_extension(stem.push('.') + ext) == Some(ext),
        name_stem(stem.push('.') + ext) == stem,
        name_extension(ext) is None,
{
    let whole = stem.push('.') + ext;
    lemma_last_dot(stem, ext);
    lemma_no_dot(ext);
    assert(whole.skip(stem.len() as int + 1) =~= ext);
    assert(whole.take(stem.len() as int) =~= stem);
    if is_parent_name(whole) {
        assert(whole[0] == stem[0]);
        assert(stem =~= seq!['.']);
    }
}

proof fn lemma_last_dot(stem: Seq<char>, ext: Seq<char>)
    requires
        stem.len() > 0,
        forall|i: int| 0 <= i < ext.len() ==> #[trigger] ext[i] != '.',
    ensures
        last_dot(stem.push('.') + ext) == stem.len(),
    decreases ext.len(),
{
    let whole = stem.push('.') + ext;
    if ext.len() == 0 {
        assert(whole =~= stem.push('.'));
    } else {
        let front = ext.drop_last();
        assert forall|i: int| 0 <= i < front.len() implies #[trigger] front[i] != '.' by {
            assert(ext[i] != '.');
        }
        lemma_last_dot(stem, front);
        assert(whole.drop_last() =~= stem.push('.') + front);
        assert(whole.last() == ext[ext.len() - 1]);
    }
}

proof fn lemma_no_dot(name: Seq<char>)
    requires
        forall|i: int| 0 <= i < name.len() ==> #[trigger] name[i] != '.',
    ensures
        last_dot(name) < 0,
    decreases name.len(),
{
    if name.len() > 1 {
        let front = name.drop_last();
        assert forall|i: int| 0 <= i < front.len() implies #[trigger] front[i] != '.' by {
            assert(name[i] != '.');
        }
        assert(name[name.len() - 1] != '.');
        lemma_no_dot(front);
    }
}

/// Repeated slashes, a slash at the end and lone dots inside do not change which
/// path a text names; another name, or a name more, does.
pub proof fn law_what_does_not_count_in_a_path(p: Seq<char>, part: Seq<char>)
    requires
        p.len() > 0,
        forall|i: int| 0 <= i < part.len() ==> #[trigger] part[i] != '/',
        part.len() > 0 && part != seq!['.'],
    ensures
        path_eq(p.push('/'), p),
        path_eq(p.push('/') + seq!['.'], p),
        components(p.push('/') + part) == components(p).push(part),
        !path_eq(p.push('/') + part, p),
{
    lemma_trailing_slash(p);
    let slashed = p.push('/');
    let dot = seq!['.'];
    assert forall|i: int| 0 <= i < dot.len() implies #[trigger] dot[i] != '/' by {}
    lemma_dot_behind_slash(slashed, dot);
    lemma_one_piece(part);
    lemma_components_behind_slash(slashed, part);
    assert(components(slashed + part) =~= components(p).push(part));
}

/// A path is measured by the bytes of its text.
pub proof fn law_paths_are_measured_in_bytes(p: Seq<char>)
    ensures
        byte_len(p) == vstd::utf8::encode_utf8(p).len(),
{
}

/// A path that starts at the root directory is never the same as one that does not,
/// and lies under none.
pub proof fn law_absolute_paths_are_apart(a: Seq<char>, b: Seq<char>)
    requires
        a.len() > 0 && a[0] == '/',
        b.len() > 0 && b[0] != '/',
    ensures
        !path_eq(a, b),
        !under(a, b),
        !under(b, a),
{
    lemma_components_are_valid(b);
    lemma_text_has_components(b);
    let ca = components(a);
    let cb = components(b);
    assert(ca[0] == seq!['/']);
    lemma_first_piece(b);
    assert(cb[0] != seq!['/']) by {
        if cb[0] == seq!['/'] {
            lemma_pieces_hold_no_slash(b);
            lemma_naming_pieces_are_plain(split_pieces(b));
            if anchor(b).len() > 0 {
                assert(cb[0] == seq!['.']);
                assert(seq!['.'][0] == '.');
            } else {
                assert(cb[0] == naming_pieces(split_pieces(b))[0]);
                assert(plain_part(naming_pieces(split_pieces(b))[0]));
                assert(cb[0][0] != '/');
            }
        }
    }
    if under(a, b) {
        assert(ca.take(cb.len() as int)[0] == ca[0]);
    }
    if under(b, a) {
        assert(cb.take(ca.len() as int)[0] == cb[0]);
    }
}

/// The components of a path are its names between slashes, after the root directory
/// where the path starts there.
pub proof fn law_components_are_the_names(name: Seq<char>, other: Seq<char>)
    requires
        name.len() > 0 && name != seq!['.'],
        other.len() > 0 && other != seq!['.'],
        forall|i: int| 0 <= i < name.len() ==> #[trigger] name[i] != '/',
        forall|i: int| 0 <= i < other.len() ==> #[trigger] other[i] != '/',
    ensures
        components(seq!['/'] + name) == seq![seq!['/'], name],
        components(name) == seq![name],
        path_eq(name, other) <==> name == other,
        has_component(seq!['/'] + name, other) <==> name == other,
{
    lemma_one_piece(name);
    lemma_one_piece(other);
    let root = seq!['/'];
    assert(components(root) =~= seq![seq!['/']]) by {
        let none = Seq::<char>::empty();
        assert(root.drop_last() =~= none);
        assert(split_pieces(none) == seq![none]);
        assert(split_pieces(root) =~= seq![none, none]);
        reveal_with_fuel(naming_pieces, 3);
        assert(seq![none, none].drop_last() =~= seq![none]);
        assert(seq![none].drop_last() =~= Seq::empty());
        assert(naming_pieces(split_pieces(root)) =~= Seq::empty());
    }
    lemma_components_behind_slash(root, name);
    let whole = components(root + name);
    assert(whole =~= seq![seq!['/'], name]);
    assert(path_eq(name, other) ==> seq![name][0] == seq![other][0]);
    assert(other != seq!['/']) by {
        assert(other[0] != '/');
    }
    assert(whole[0] == seq!['/'] && whole[1] == name);
    if name == other {
        assert(components(root + name)[1] == other);
    }
}

/// What is left of a path below a directory stands in the path's text as it is.
pub proof fn law_rest_is_a_part_of_the_text(p: Seq<char>, base: Seq<char>)
    ensures
        exists|a: int, b: int|
            0 <= a <= b <= p.len() && #[trigger] p.subrange(a, b) == rest_below(p, base),
{
    lemma_trimmed_is_a_start(p);
    let t = trimmed(p);
    if path_eq(p, base) {
        assert(p.subrange(0, 0) =~= rest_below(p, base));
    } else {
        lemma_start_len_fits(t, base);
        let n = start_len(t, base) as int;
        assert(p.subrange(n, t.len() as int) =~= t.skip(n));
    }
}

proof fn lemma_trimmed_is_a_start(p: Seq<char>)
    ensures
        trimmed(p).len() <= p.len(),
        trimmed(p) == p.take(trimmed(p).len() as int),
    decreases p.len(),
{
    if p.len() > 0 && path_eq(p.drop_last(), p) {
        lemma_trimmed_is_a_start(p.drop_last());
        assert(p.drop_last().take(trimmed(p).len() as int) =~= p.take(trimmed(p).len() as int));
    } else {
        assert(p.take(p.len() as int) =~= p);
    }
}

proof fn lemma_start_len_fits(p: Seq<char>, base: Seq<char>)
    ensures
        start_len(p, base) <= p.len(),
    decreases p.len(),
{
    if !(p.len() == 0 || (at_boundary(p) && path_eq(p, base))) {
        lemma_start_len_fits(p.drop_last(), base);
    }
}

/// Joining puts one slash between a directory and a relative path, unless there is
/// one, or no directory.
pub proof fn law_how_paths_are_joined(base: Seq<char>, rel: Seq<char>)
    requires
        !(rel.len() > 0 && rel[0] == '/'),
    ensures
        base.len() == 0 ==> joined(base, rel) == rel,
        base.len() > 0 && base.last() == '/' ==> joined(base, rel) == base + rel,
        base.len() > 0 && base.last() != '/' ==> joined(base, rel) == base + seq!['/'] + rel,
{
    if base.len() == 0 {
        assert(base + rel =~= rel);
    } else if base.last() != '/' {
        assert(base.push('/') + rel =~= base + seq!['/'] + rel);
    }
}

/// Swapping a character changes every occurrence of it and nothing else.
pub proof fn law_swapping_changes_one_character(s: Seq<char>, from: char, to: char)
    ensures
        swapped(s, from, to).len() == s.len(),
        forall|i: int|
            0 <= i < s.len() ==> #[trigger] swapped(s, from, to)[i] == if s[i] == from {
                to
            } else {
                s[i]
            },
{
}

} // verus!
