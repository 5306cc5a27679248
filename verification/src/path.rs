//! Object keys as paths: what stands between the slashes.
use vstd::prelude::*;
use vstd::string::StrSliceExecFns;

use crate::text::chars_of;

verus! {

/// What stands between the separators of a text; there is one more piece than separators.
pub open spec fn pieces(s: Seq<char>, separator: char) -> Seq<Seq<char>>
    decreases s.len(),
{
    if s.len() == 0 {
        seq![Seq::<char>::empty()]
    } else {
        let front = pieces(s.drop_last(), separator);
        if s.last() == separator {
            front.push(Seq::<char>::empty())
        } else {
            front.drop_last().push(front.last().push(s.last()))
        }
    }
}

/// The pieces with a separator between each two.
pub open spec fn joined(list: Seq<Seq<char>>, separator: char) -> Seq<char>
    decreases list.len(),
{
    if list.len() == 0 {
        Seq::<char>::empty()
    } else if list.len() == 1 {
        list[0]
    } else {
        joined(list.drop_last(), separator).push(separator) + list.last()
    }
}

/// The pieces of a text hold no separator, and joining them gives the text back.
pub proof fn law_pieces_join_back(s: Seq<char>, separator: char)
    ensures
        pieces(s, separator).len() > 0,
        forall|i: int|
            0 <= i < pieces(s, separator).len() ==> !(#[trigger] pieces(
                s,
                separator,
            )[i]).contains(separator),
        joined(pieces(s, separator), separator) == s,
    decreases s.len(),
{
    let all = pieces(s, separator);
    if s.len() > 0 {
        law_pieces_join_back(s.drop_last(), separator);
        let front = pieces(s.drop_last(), separator);
        if s.last() == separator {
            assert(all.drop_last() =~= front);
            assert(joined(all, separator) =~= s);
        } else {
            assert forall|i: int| 0 <= i < all.len() implies !(#[trigger] all[i]).contains(
                separator,
            ) by {
                if i < all.len() - 1 {
                    assert(all[i] == front[i]);
                } else {
                    assert(!front[i].contains(separator));
                    let piece = front.last().push(s.last());
                    if piece.contains(separator) {
                        let k = choose|k: int| 0 <= k < piece.len() && piece[k] == separator;
                        assert(front.last()[k] == separator);
                    }
                }
            }
            assert(all.drop_last() =~= front.drop_last());
            assert(joined(all, separator) =~= joined(front, separator).push(s.last()));
            assert(joined(all, separator) =~= s);
        }
    } else {
        assert(all[0] =~= s);
    }
}

/// The pieces of what stands before a separator and of what stands after it are the pieces of
/// the whole.
pub proof fn law_pieces_of_two(a: Seq<char>, b: Seq<char>, separator: char)
    ensures
        pieces(a.push(separator) + b, separator) == pieces(a, separator) + pieces(b, separator),
    decreases b.len(),
{
    let whole = a.push(separator) + b;
    if b.len() == 0 {
        assert(whole =~= a.push(separator));
        assert(whole.drop_last() =~= a);
        assert(pieces(whole, separator) =~= pieces(a, separator) + pieces(b, separator));
    } else {
        law_pieces_of_two(a, b.drop_last(), separator);
        law_pieces_join_back(b.drop_last(), separator);
        assert(whole.drop_last() =~= a.push(separator) + b.drop_last());
        assert(pieces(whole, separator) =~= pieces(a, separator) + pieces(b, separator));
    }
}

/// A text without separators is its only piece.
pub proof fn law_pieces_of_one(s: Seq<char>, separator: char)
    requires
        !s.contains(separator),
    ensures
        pieces(s, separator) == seq![s],
    decreases s.len(),
{
    if s.len() > 0 {
        assert(s.last() != separator);
        assert forall|c: char| s.drop_last().contains(c) implies s.contains(c) by {
            let k = choose|k: int| 0 <= k < s.drop_last().len() && s.drop_last()[k] == c;
            assert(s[k] == c);
        }
        law_pieces_of_one(s.drop_last(), separator);
        assert(s.drop_last().push(s.last()) =~= s);
        assert(pieces(s, separator) =~= seq![s]);
    } else {
        assert(s =~= Seq::<char>::empty());
        assert(pieces(s, separator) =~= seq![s]);
    }
}

/// Any list of pieces without separators, if there is one at all, is what joining it is made of.
pub proof fn law_joined_splits_back(list: Seq<Seq<char>>, separator: char)
    requires
        list.len() > 0,
        forall|i: int| 0 <= i < list.len() ==> !(#[trigger] list[i]).contains(separator),
    ensures
        pieces(joined(list, separator), separator) == list,
    decreases list.len(),
{
    law_pieces_of_one(list.last(), separator);
    if list.len() == 1 {
        assert(list =~= seq![list[0]]);
    } else {
        let front = list.drop_last();
        assert forall|i: int| 0 <= i < front.len() implies !(#[trigger] front[i]).contains(
            separator,
        ) by {
            assert(front[i] == list[i]);
        }
        law_joined_splits_back(front, separator);
        law_pieces_of_two(joined(front, separator), list.last(), separator);
        assert(list =~= front + seq![list.last()]);
    }
}

/// What `prefix` leaves of a text that starts with it; any other text whole.
pub open spec fn without_prefix(s: Seq<char>, prefix: Seq<char>) -> Seq<char> {
    if prefix.is_prefix_of(s) {
        s.skip(prefix.len() as int)
    } else {
        s
    }
}

/// A text without the `c`s at its end.
pub open spec fn without_trailing(s: Seq<char>, c: char) -> Seq<char>
    decreases s.len(),
{
    if s.len() > 0 && s.last() == c {
        without_trailing(s.drop_last(), c)
    } else {
        s
    }
}

/// The last piece of a key between slashes.
pub open spec fn base_name(key: Seq<char>) -> Seq<char> {
    pieces(key, '/').last()
}

/// The pieces of a prefix between slashes, without the empty ones.
pub open spec fn segments(prefix: Seq<char>) -> Seq<Seq<char>> {
    pieces(prefix, '/').filter(|piece: Seq<char>| piece.len() > 0)
}

/// The path through `list`: each name with a slash behind it.
pub open spec fn trail(list: Seq<Seq<char>>) -> Seq<char>
    decreases list.len(),
{
    if list.len() == 0 {
        Seq::<char>::empty()
    } else {
        (trail(list.drop_last()) + list.last()).push('/')
    }
}

/// The prefix is a path of folders: every slash has a name in front of it, and nothing stands
/// behind the last slash.
pub open spec fn is_folder_path(prefix: Seq<char>) -> bool {
    let all = pieces(prefix, '/');
    &&& all.last().len() == 0
    &&& forall|i: int| 0 <= i < all.len() - 1 ==> (#[trigger] all[i]).len() > 0
}

/// The last piece of a key holds no slash: a download stays in its directory.
pub proof fn law_base_name_has_no_slash(key: Seq<char>)
    ensures
        !base_name(key).contains('/'),
{
    law_pieces_join_back(key, '/');
    let all = pieces(key, '/');
    assert(!all[all.len() - 1].contains('/'));
}

/// A key ends with its last piece, and nothing or a slash stands in front of that piece.
pub proof fn law_base_name_ends_key(key: Seq<char>)
    ensures
        base_name(key).is_suffix_of(key),
        base_name(key).len() < key.len() ==> key[key.len() - base_name(key).len() - 1] == '/',
{
    law_pieces_join_back(key, '/');
    let all = pieces(key, '/');
    if all.len() > 1 {
        let front = joined(all.drop_last(), '/').push('/');
        assert(key == front + all.last());
        assert(key.subrange(key.len() - all.last().len(), key.len() as int) =~= all.last());
        assert(key[front.len() - 1] == '/');
    } else {
        assert(key.subrange(0, key.len() as int) =~= key);
    }
}

/// A file put into a folder keeps its name: it is the last piece of the key.
pub proof fn law_base_name_in_folder(folder: Seq<char>, name: Seq<char>)
    requires
        !name.contains('/'),
        folder.len() == 0 || folder.last() == '/',
    ensures
        base_name(folder + name) == name,
{
    law_pieces_of_one(name, '/');
    if folder.len() == 0 {
        assert(folder + name =~= name);
    } else {
        assert(folder + name =~= folder.drop_last().push('/') + name);
        law_pieces_of_two(folder.drop_last(), name, '/');
    }
}

/// Taking the prefix off puts back what was added behind it.
pub proof fn law_without_prefix_undoes_adding(prefix: Seq<char>, rest: Seq<char>)
    ensures
        without_prefix(prefix + rest, prefix) == rest,
{
    assert((prefix + rest).subrange(0, prefix.len() as int) =~= prefix);
    assert((prefix + rest).skip(prefix.len() as int) =~= rest);
}

/// A text is what is left of it, followed by the `c`s that were taken off; what is left does
/// not end with `c`.
pub proof fn law_without_trailing(s: Seq<char>, c: char)
    ensures
        without_trailing(s, c).is_prefix_of(s),
        forall|i: int| without_trailing(s, c).len() <= i < s.len() ==> #[trigger] s[i] == c,
        without_trailing(s, c).len() > 0 ==> without_trailing(s, c).last() != c,
    decreases s.len(),
{
    if s.len() > 0 && s.last() == c {
        law_without_trailing(s.drop_last(), c);
        let left = without_trailing(s, c);
        assert(left =~= s.subrange(0, left.len() as int));
        assert forall|i: int| left.len() <= i < s.len() implies #[trigger] s[i] == c by {
            if i < s.len() - 1 {
                assert(s.drop_last()[i] == c);
            }
        }
    } else {
        assert(s =~= s.subrange(0, s.len() as int));
    }
}

/// The segments of a path are the names that it leads through.
pub proof fn law_segments_of_trail(list: Seq<Seq<char>>)
    requires
        forall|i: int|
            0 <= i < list.len() ==> (#[trigger] list[i]).len() > 0 && !list[i].contains('/'),
    ensures
        segments(trail(list)) == list,
{
    let keep = |piece: Seq<char>| piece.len() > 0;
    lemma_pieces_of_trail(list);
    lemma_filter_of_kept(list, keep);
    reveal(Seq::filter);
    let none = Seq::<char>::empty();
    assert(list.push(none).drop_last() =~= list);
    assert(!keep(none));
}

/// Cutting a path of folders into its segments loses nothing.
pub proof fn law_trail_of_segments(prefix: Seq<char>)
    requires
        is_folder_path(prefix),
    ensures
        trail(segments(prefix)) == prefix,
{
    let keep = |piece: Seq<char>| piece.len() > 0;
    let all = pieces(prefix, '/');
    let names = all.drop_last();
    law_pieces_join_back(prefix, '/');
    lemma_filter_of_kept(names, keep);
    reveal(Seq::filter);
    assert(segments(prefix) =~= names);
    assert forall|i: int| 0 <= i < names.len() implies (#[trigger] names[i]).len() > 0
        && !names[i].contains('/') by {
        assert(names[i] == all[i]);
    }
    lemma_pieces_of_trail(names);
    assert(all.last() =~= Seq::<char>::empty());
    assert(all =~= names.push(Seq::<char>::empty()));
    law_pieces_join_back(trail(names), '/');
}

/// The segments of a prefix are non-empty and hold no slash.
pub proof fn law_segments_are_names(prefix: Seq<char>)
    ensures
        forall|i: int|
            0 <= i < segments(prefix).len() ==> (#[trigger] segments(prefix)[i]).len() > 0
                && !segments(prefix)[i].contains('/'),
{
    let keep = |piece: Seq<char>| piece.len() > 0;
    let all = pieces(prefix, '/');
    law_pieces_join_back(prefix, '/');
    assert forall|i: int| 0 <= i < segments(prefix).len() implies (#[trigger] segments(
        prefix,
    )[i]).len() > 0 && !segments(prefix)[i].contains('/') by {
        all.lemma_filter_pred(keep, i);
        assert(all.filter(keep).contains(segments(prefix)[i]));
        all.lemma_filter_contains_rev(keep, segments(prefix)[i]);
        let k = choose|k: int| 0 <= k < all.len() && all[k] == segments(prefix)[i];
        assert(!all[k].contains('/'));
    }
}

/// The segments of the path to the segment at `k` are the segments up to `k`.
pub proof fn law_segments_of_shorter_trail(prefix: Seq<char>, k: int)
    requires
        0 <= k < segments(prefix).len(),
    ensures
        segments(trail(segments(prefix).take(k + 1))) == segments(prefix).take(k + 1),
{
    law_segments_are_names(prefix);
    let list = segments(prefix).take(k + 1);
    assert forall|i: int| 0 <= i < list.len() implies (#[trigger] list[i]).len() > 0
        && !list[i].contains('/') by {
        assert(list[i] == segments(prefix)[i]);
    }
    law_segments_of_trail(list);
}

proof fn lemma_pieces_of_trail(list: Seq<Seq<char>>)
    requires
        forall|i: int| 0 <= i < list.len() ==> !(#[trigger] list[i]).contains('/'),
    ensures
        pieces(trail(list), '/') == list.push(Seq::<char>::empty()),
    decreases list.len(),
{
    let none = Seq::<char>::empty();
    if list.len() == 0 {
        assert(pieces(trail(list), '/') =~= list.push(none));
    } else {
        let front = list.drop_last();
        let name = list.last();
        assert(!list[list.len() - 1].contains('/'));
        assert forall|i: int| 0 <= i < front.len() implies !(#[trigger] front[i]).contains(
            '/',
        ) by {
            assert(front[i] == list[i]);
        }
        lemma_pieces_of_trail(front);
        lemma_pieces_of_more(trail(front), name, '/');
        let body = trail(front) + name;
        assert(trail(list).drop_last() =~= body);
        assert(pieces(trail(list), '/') == pieces(body, '/').push(none));
        assert(none + name =~= name);
        assert(pieces(body, '/') =~= front.push(name));
        assert(front.push(name) =~= list);
    }
}

proof fn lemma_pieces_of_more(a: Seq<char>, b: Seq<char>, separator: char)
    requires
        !b.contains(separator),
    ensures
        pieces(a + b, separator) == pieces(a, separator).drop_last().push(
            pieces(a, separator).last() + b,
        ),
    decreases b.len(),
{
    let of_a = pieces(a, separator);
    law_pieces_join_back(a, separator);
    if b.len() == 0 {
        assert(a + b =~= a);
        assert(of_a.last() + b =~= of_a.last());
        assert(of_a.drop_last().push(of_a.last()) =~= of_a);
    } else {
        assert(b[b.len() - 1] != separator);
        assert forall|c: char| b.drop_last().contains(c) implies b.contains(c) by {
            let k = choose|k: int| 0 <= k < b.drop_last().len() && b.drop_last()[k] == c;
            assert(b[k] == c);
        }
        lemma_pieces_of_more(a, b.drop_last(), separator);
        assert((a + b).drop_last() =~= a + b.drop_last());
        let shorter = pieces(a + b.drop_last(), separator);
        assert(shorter.drop_last() =~= of_a.drop_last());
        assert((of_a.last() + b.drop_last()).push(b.last()) =~= of_a.last() + b);
    }
}

proof fn lemma_filter_of_kept(list: Seq<Seq<char>>, keep: spec_fn(Seq<char>) -> bool)
    requires
        forall|i: int| 0 <= i < list.len() ==> keep(#[trigger] list[i]),
    ensures
        list.filter(keep) == list,
    decreases list.len(),
{
    reveal(Seq::filter);
    if list.len() > 0 {
        let front = list.drop_last();
        assert forall|i: int| 0 <= i < front.len() implies keep(#[trigger] front[i]) by {
            assert(front[i] == list[i]);
        }
        assert(keep(list[list.len() - 1]));
        lemma_filter_of_kept(front, keep);
        assert(front.push(list.last()) =~= list);
    }
}

/// The key or prefix `key` without `prefix` in front and without slashes at its end.
pub fn relative_name<'a>(key: &'a str, prefix: &str) -> (res: &'a str)
    ensures
        res@ == without_trailing(without_prefix(key@, prefix@), '/'),
{
    let chars = chars_of(key);
    let front = chars_of(prefix);
    let mut start: usize = 0;
    if front.len() <= chars.len() {
        while start < front.len() && chars[start] == front[start]
            invariant
                start <= front.len() <= chars.len(),
                chars@ == key@,
                front@ == prefix@,
                forall|i: int| 0 <= i < start ==> chars@[i] == front@[i],
            decreases front.len() - start,
        {
            start = start + 1;
        }
        if start < front.len() {
            proof {
                assert(!prefix@.is_prefix_of(key@)) by {
                    if prefix@.is_prefix_of(key@) {
                        assert(prefix@[start as int] == key@.subrange(0, prefix@.len() as int)[start as int]);
                    }
                }
            }
            start = 0;
        }
    }
    let ghost rest = without_prefix(key@, prefix@);
    proof {
        assert(rest =~= key@.subrange(start as int, key@.len() as int));
    }
    let mut end: usize = chars.len();
    while start < end && chars[end - 1] == '/'
        invariant
            start <= end <= chars.len(),
            chars@ == key@,
            without_trailing(rest, '/') == without_trailing(
                key@.subrange(start as int, end as int),
                '/',
            ),
        decreases end - start,
    {
        proof {
            assert(key@.subrange(start as int, end as int).drop_last() =~= key@.subrange(
                start as int,
                end - 1,
            ));
        }
        end = end - 1;
    }
    key.substring_char(start, end)
}

/// What stands behind the last slash of a key: all of it, if it has no slash.
pub fn last_segment<'a>(key: &'a str) -> (res: &'a str)
    ensures
        res@ == base_name(key@),
{
    let chars = chars_of(key);
    let mut start: usize = chars.len();
    while start > 0 && chars[start - 1] != '/'
        invariant
            start <= chars.len(),
            chars@ == key@,
            forall|i: int| start <= i < chars.len() ==> chars@[i] != '/',
        decreases start,
    {
        start = start - 1;
    }
    proof {
        let tail = key@.subrange(start as int, key@.len() as int);
        law_pieces_of_one(tail, '/');
        if start > 0 {
            let head = key@.take(start - 1);
            assert(key@ =~= head.push('/') + tail);
            law_pieces_of_two(head, tail, '/');
        } else {
            assert(tail =~= key@);
        }
    }
    key.substring_char(start, chars.len())
}

/// The non-empty pieces of a prefix between slashes, in order.
pub fn split_segments(prefix: &str) -> (res: Vec<String>)
    ensures
        res.deep_view() == segments(prefix@),
{
    let chars = chars_of(prefix);
    let mut res: Vec<String> = Vec::new();
    let mut start: usize = 0;
    let mut next: usize = 0;
    let ghost keep = |piece: Seq<char>| piece.len() > 0;
    proof {
        reveal(Seq::filter);
        assert(prefix@.take(0) =~= Seq::<char>::empty());
        assert(prefix@.subrange(0, 0) =~= Seq::<char>::empty());
        assert(pieces(prefix@.take(0), '/').drop_last() =~= Seq::<Seq<char>>::empty());
        assert(res.deep_view() =~= Seq::<Seq<char>>::empty());
    }
    while next < chars.len()
        invariant
            start <= next <= chars.len(),
            chars@ == prefix@,
            keep == (|piece: Seq<char>| piece.len() > 0),
            pieces(prefix@.take(next as int), '/').len() > 0,
            pieces(prefix@.take(next as int), '/').last() == prefix@.subrange(
                start as int,
                next as int,
            ),
            res.deep_view() == pieces(prefix@.take(next as int), '/').drop_last().filter(keep),
        decreases chars.len() - next,
    {
        let ghost seen = pieces(prefix@.take(next as int), '/');
        proof {
            reveal(Seq::filter);
            assert(prefix@.take(next + 1).drop_last() =~= prefix@.take(next as int));
        }
        if chars[next] == '/' {
            proof {
                assert(pieces(prefix@.take(next + 1), '/').drop_last() =~= seen);
                assert(prefix@.subrange(next + 1, next + 1) =~= Seq::<char>::empty());
            }
            if start < next {
                let ghost before = res.deep_view();
                res.push(prefix.substring_char(start, next).to_owned());
                proof {
                    assert(res.deep_view() =~= before.push(seen.last()));
                }
            }
            start = next + 1;
        } else {
            proof {
                assert(pieces(prefix@.take(next + 1), '/').drop_last() =~= seen.drop_last());
                assert(prefix@.subrange(start as int, next + 1) =~= prefix@.subrange(
                    start as int,
                    next as int,
                ).push(prefix@[next as int]));
            }
        }
        next = next + 1;
    }
    proof {
        reveal(Seq::filter);
        assert(prefix@.take(next as int) =~= prefix@);
    }
    if start < next {
        let ghost before = res.deep_view();
        res.push(prefix.substring_char(start, next).to_owned());
        proof {
            assert(res.deep_view() =~= before.push(pieces(prefix@, '/').last()));
        }
    }
    res
}

} // verus!
