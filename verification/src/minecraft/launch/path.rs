//! Paths as texts, in a form that does not depend on the host: segments
//! between separators, joined again with forward slashes.

use crate::text::joined;
use vstd::prelude::*;

verus! {

/// Both the forward slash and the backslash separate the segments of a
/// path, whatever the host.
pub open spec fn is_separator(c: char) -> bool {
    c == '/' || c == '\\'
}

/// What stands between the separators of a path, from left to right. A
/// path with `n` separators has `n + 1` segments, some of which may be
/// empty.
pub open spec fn segments(path: Seq<char>) -> Seq<Seq<char>>
    decreases path.len(),
{
    if path.len() == 0 {
        seq![Seq::empty()]
    } else if is_separator(path.last()) {
        segments(path.drop_last()).push(Seq::empty())
    } else {
        let front = segments(path.drop_last());
        front.drop_last().push(front.last().push(path.last()))
    }
}

/// A segment that names something: not empty, and not the single dot that
/// stands for the directory itself.
pub open spec fn is_name(segment: Seq<char>) -> bool {
    segment.len() > 0 && segment != seq!['.']
}

/// The path begins at the root.
pub open spec fn has_root(path: Seq<char>) -> bool {
    path.len() > 0 && is_separator(path[0])
}

/// The test that picks the names among segments.
pub open spec fn name_test() -> spec_fn(Seq<char>) -> bool {
    |segment: Seq<char>| is_name(segment)
}

/// The segments that are names, in order.
pub open spec fn names(list: Seq<Seq<char>>) -> Seq<Seq<char>> {
    list.filter(name_test())
}

/// The components of a path: its names in order (`..` counts as a name),
/// after a single dot where the path begins with one.
pub open spec fn components(path: Seq<char>) -> Seq<Seq<char>> {
    if segments(path)[0] == seq!['.'] {
        seq![seq!['.']] + names(segments(path))
    } else {
        names(segments(path))
    }
}

/// The path with its components separated by single forward slashes, after
/// one forward slash where the path begins at the root.
pub open spec fn normalized(path: Seq<char>) -> Seq<char> {
    if has_root(path) {
        seq!['/'] + joined(components(path), seq!['/'])
    } else {
        joined(components(path), seq!['/'])
    }
}

/// `relative` taken from `base`: a path that begins at the root stands for
/// itself; any other follows the base, after a separator unless the base is
/// empty or ends in one.
pub open spec fn joined_path(base: Seq<char>, relative: Seq<char>) -> Seq<char> {
    if has_root(relative) {
        relative
    } else if base.len() > 0 && !is_separator(base.last()) {
        base + seq!['/'] + relative
    } else {
        base + relative
    }
}

fn separates(c: char) -> (yes: bool)
    ensures
        yes == is_separator(c),
{
    c == '/' || c == '\\'
}

/// Splits a path at its separators.
fn split_segments(path: &str) -> (out: Vec<&str>)
    ensures
        out.deep_view() == segments(path@),
{
    let total: usize = path.unicode_len();
    let mut out: Vec<&str> = Vec::new();
    let mut start: usize = 0;
    let mut i: usize = 0;
    assert(out.deep_view() =~= segments(path@.take(0)).drop_last());
    assert(path@.subrange(0, 0) =~= segments(path@.take(0)).last());
    for c in it: path.chars()
        invariant
            it.seq() == path@,
            i == it.index(),
            total == path@.len(),
            start <= i,
            out.deep_view() == segments(path@.take(i as int)).drop_last(),
            segments(path@.take(i as int)).last() == path@.subrange(start as int, i as int),
    {
        let ghost before = out.deep_view();
        assert(path@.take(i + 1).drop_last() =~= path@.take(i as int));
        assert(path@.take(i + 1).last() == c);
        if separates(c) {
            let piece = path.substring_char(start, i);
            out.push(piece);
            start = i + 1;
            assert(out.deep_view() =~= before.push(piece@));
            assert(out.deep_view() =~= segments(path@.take(i + 1)).drop_last());
            assert(path@.subrange(start as int, i + 1) =~= Seq::<char>::empty());
        } else {
            assert(segments(path@.take(i + 1)).drop_last() =~= before);
            assert(path@.subrange(start as int, i + 1) =~= path@.subrange(
                start as int,
                i as int,
            ).push(c));
        }
        i += 1;
    }
    assert(path@.take(i as int) =~= path@);
    let ghost before = out.deep_view();
    let piece = path.substring_char(start, total);
    out.push(piece);
    assert(out.deep_view() =~= before.push(piece@));
    assert(out.deep_view() =~= segments(path@));
    out
}

/// A path has a segment. Its first segment is empty where the path begins
/// at the root, and then another follows; it is not empty where the path
/// begins with anything else.
proof fn lemma_first_segment(path: Seq<char>)
    ensures
        segments(path).len() >= 1,
        has_root(path) ==> segments(path).len() > 1 && segments(path)[0].len() == 0,
        path.len() > 0 && !has_root(path) ==> segments(path)[0].len() > 0,
        path.len() == 0 ==> segments(path).len() == 1,
    decreases path.len(),
{
    if path.len() > 0 {
        let front = path.drop_last();
        lemma_first_segment(front);
        if front.len() > 0 {
            assert(front[0] == path[0]);
        }
    }
}

/// Brings a path into the form that does not depend on the host: the names
/// of the path, separated by single forward slashes. Empty segments and
/// single dots are dropped, but for a single dot at the very beginning; a
/// path that begins at the root keeps one leading slash.
pub fn normalize(path: &str) -> (out: String)
    ensures
        out@ == normalized(path@),
{
    proof {
        reveal_strlit("/");
        lemma_first_segment(path@);
    }
    let pieces = split_segments(path);
    let ghost list = segments(path@);
    let mut out = String::new();
    let first_len: usize = pieces[0].unicode_len();
    if pieces.len() > 1 && first_len == 0 {
        out.append("/");
    }
    let ghost prefix = out@;
    let ghost mut kept: Seq<Seq<char>> = Seq::empty();
    let mut any: bool = false;
    let mut k: usize = 0;
    assert(list.take(0) =~= Seq::<Seq<char>>::empty());
    assert(names(list.take(0)) =~= Seq::<Seq<char>>::empty()) by {
        reveal(Seq::filter);
    }
    assert(out@ =~= prefix + joined(kept, seq!['/']));
    while k < pieces.len()
        invariant
            k <= pieces.len(),
            pieces.deep_view() == list,
            list.len() >= 1,
            any == (kept.len() > 0),
            kept == (if k > 0 && list[0] == seq!['.'] {
                seq![seq!['.']]
            } else {
                Seq::empty()
            }) + names(list.take(k as int)),
            out@ == prefix + joined(kept, seq!['/']),
        decreases pieces.len() - k,
    {
        let piece = pieces[k];
        let ghost before = kept;
        assert(piece@ == list[k as int]);
        let length: usize = piece.unicode_len();
        let dot: bool = length == 1 && piece.get_char(0) == '.';
        proof {
            assert(dot == (piece@ == seq!['.'])) by {
                if dot {
                    assert(piece@ =~= seq!['.']);
                }
            }
            assert(list.take(k + 1) =~= list.take(k as int).push(piece@));
            list.take(k as int).lemma_filter_push(piece@, name_test());
        }
        if length > 0 && (!dot || k == 0) {
            if any {
                out.append("/");
            }
            out.append(piece);
            any = true;
            proof {
                reveal_strlit("/");
                kept = before.push(piece@);
                assert(kept.drop_last() =~= before);
                assert(kept.last() == piece@);
                assert(out@ =~= prefix + joined(kept, seq!['/']));
            }
        }
        k += 1;
        assert(kept =~= (if k > 0 && list[0] == seq!['.'] {
            seq![seq!['.']]
        } else {
            Seq::empty()
        }) + names(list.take(k as int)));
    }
    assert(list.take(k as int) =~= list);
    out
}

/// Takes `relative` from `base`: a path that begins at the root stands for
/// itself; any other follows the base, after a forward slash unless the
/// base is empty or ends in a separator.
pub fn join_paths(base: &str, relative: &str) -> (out: String)
    ensures
        out@ == joined_path(base@, relative@),
{
    proof {
        reveal_strlit("/");
    }
    let relative_len: usize = relative.unicode_len();
    if relative_len > 0 && separates(relative.get_char(0)) {
        return String::from_str(relative);
    }
    let mut out = String::from_str(base);
    let base_len: usize = base.unicode_len();
    if base_len > 0 && !separates(base.get_char(base_len - 1)) {
        out.append("/");
    }
    out.append(relative);
    assert(out@ =~= joined_path(base@, relative@));
    out
}

/// Where a file with the path `relative` goes under the directory `base`,
/// in the form that does not depend on the host.
pub open spec fn destination_of(base: Seq<char>, relative: Seq<char>) -> Seq<char> {
    normalized(joined_path(base, relative))
}

/// Computes where a file with the path `relative` goes under the directory
/// `base`.
pub fn destination(base: &str, relative: &str) -> (out: String)
    ensures
        out@ == destination_of(base@, relative@),
{
    let whole = join_paths(base, relative);
    normalize(whole.as_str())
}

/// A text without a separator in it.
pub open spec fn is_plain(text: Seq<char>) -> bool {
    forall|i: int| 0 <= i < text.len() ==> !is_separator(#[trigger] text[i])
}

/// Every text of the list is a name without a separator in it.
pub open spec fn are_plain_names(list: Seq<Seq<char>>) -> bool {
    forall|i: int| 0 <= i < list.len() ==> is_name(#[trigger] list[i]) && is_plain(list[i])
}

/// Text without a separator, put behind a path, lengthens the last segment
/// of the path.
proof fn lemma_segments_of_longer_last(path: Seq<char>, text: Seq<char>)
    requires
        is_plain(text),
    ensures
        segments(path).len() >= 1,
        segments(path + text) == segments(path).drop_last().push(segments(path).last() + text),
    decreases text.len(),
{
    lemma_first_segment(path);
    let list = segments(path);
    if text.len() == 0 {
        assert(path + text =~= path);
        assert(list.last() + text =~= list.last());
        assert(list.drop_last().push(list.last()) =~= list);
    } else {
        let front = text.drop_last();
        assert(is_plain(front)) by {
            assert forall|i: int| 0 <= i < front.len() implies !is_separator(#[trigger] front[i]) by {
                assert(front[i] == text[i]);
            }
        }
        lemma_segments_of_longer_last(path, front);
        assert((path + text).drop_last() =~= path + front);
        assert((path + text).last() == text.last());
        assert(!is_separator(text[text.len() - 1]));
        assert((list.last() + front).push(text.last()) =~= list.last() + text);
        assert(list.drop_last().push(list.last() + front).drop_last() =~= list.drop_last());
    }
}

/// Names put behind a path and a separator, with separators between them,
/// are segments of their own after the segments of the path.
proof fn lemma_segments_of_appended_names(
    path: Seq<char>,
    first: char,
    list: Seq<Seq<char>>,
    between: char,
)
    requires
        is_separator(first),
        is_separator(between),
        list.len() >= 1,
        forall|i: int| 0 <= i < list.len() ==> is_plain(#[trigger] list[i]),
    ensures
        segments(path.push(first) + joined(list, seq![between])) == segments(path) + list,
    decreases list.len(),
{
    let text = joined(list, seq![between]);
    if list.len() == 1 {
        assert(is_plain(list[0]));
        lemma_segments_of_longer_last(path.push(first), list[0]);
        assert(path.push(first).drop_last() =~= path);
        assert(Seq::<char>::empty() + list[0] =~= list[0]);
        assert(segments(path).push(Seq::empty()).drop_last() =~= segments(path));
        assert(segments(path).push(list[0]) =~= segments(path) + list);
    } else {
        let front = list.drop_last();
        let last = list.last();
        assert(is_plain(list[list.len() - 1]));
        assert forall|i: int| 0 <= i < front.len() implies is_plain(#[trigger] front[i]) by {
            assert(front[i] == list[i]);
        }
        lemma_segments_of_appended_names(path, first, front, between);
        let before = path.push(first) + joined(front, seq![between]);
        assert(path.push(first) + text =~= before.push(between) + last);
        lemma_segments_of_longer_last(before.push(between), last);
        assert(before.push(between).drop_last() =~= before);
        assert(Seq::<char>::empty() + last =~= last);
        assert(segments(before).push(Seq::empty()).drop_last() =~= segments(before));
        assert((segments(path) + front).push(last) =~= segments(path) + list);
    }
}

/// Names with separators between them are the segments of the text that
/// they make.
proof fn lemma_segments_of_joined_names(list: Seq<Seq<char>>, between: char)
    requires
        is_separator(between),
        list.len() >= 1,
        forall|i: int| 0 <= i < list.len() ==> is_plain(#[trigger] list[i]),
    ensures
        segments(joined(list, seq![between])) == list,
    decreases list.len(),
{
    if list.len() == 1 {
        assert(is_plain(list[0]));
        lemma_segments_of_longer_last(Seq::empty(), list[0]);
        assert(Seq::<char>::empty() + list[0] =~= list[0]);
        assert(segments(Seq::<char>::empty()) =~= seq![Seq::<char>::empty()]);
        assert(seq![Seq::<char>::empty()].drop_last().push(list[0]) =~= list);
    } else {
        let front = list.drop_last();
        let last = list.last();
        assert(is_plain(list[list.len() - 1]));
        assert forall|i: int| 0 <= i < front.len() implies is_plain(#[trigger] front[i]) by {
            assert(front[i] == list[i]);
        }
        lemma_segments_of_joined_names(front, between);
        let before = joined(front, seq![between]);
        assert(joined(list, seq![between]) =~= before.push(between) + last);
        lemma_segments_of_longer_last(before.push(between), last);
        assert(before.push(between).drop_last() =~= before);
        assert(Seq::<char>::empty() + last =~= last);
        assert(front.push(Seq::empty()).drop_last() =~= front);
        assert(front.push(last) =~= list);
    }
}

/// Of a list of names every one is kept as a name.
proof fn lemma_names_of_names(list: Seq<Seq<char>>)
    requires
        forall|i: int| 0 <= i < list.len() ==> is_name(#[trigger] list[i]),
    ensures
        names(list) == list,
    decreases list.len(),
{
    reveal(Seq::filter);
    if list.len() > 0 {
        let front = list.drop_last();
        assert forall|i: int| 0 <= i < front.len() implies is_name(#[trigger] front[i]) by {
            assert(front[i] == list[i]);
        }
        lemma_names_of_names(front);
        assert(is_name(list[list.len() - 1]));
        assert(front.push(list.last()) =~= list);
    }
}

/// Names joined with a separator make a text that is not empty, begins
/// with the first character of the first name and ends with the last
/// character of the last.
proof fn lemma_ends_of_joined_names(list: Seq<Seq<char>>, between: char)
    requires
        list.len() >= 1,
        forall|i: int| 0 <= i < list.len() ==> (#[trigger] list[i]).len() > 0,
    ensures
        joined(list, seq![between]).len() > 0,
        joined(list, seq![between])[0] == list[0][0],
        joined(list, seq![between]).last() == list.last().last(),
    decreases list.len(),
{
    assert(list[0].len() > 0);
    assert(list[list.len() - 1].len() > 0);
    if list.len() > 1 {
        let front = list.drop_last();
        assert forall|i: int| 0 <= i < front.len() implies (#[trigger] front[i]).len() > 0 by {
            assert(front[i] == list[i]);
        }
        lemma_ends_of_joined_names(front, between);
        assert(front[0] == list[0]);
    }
}

/// What is known of a text that plain names make: it has the names as its
/// segments, does not begin at the root, and does not end in a separator.
proof fn lemma_text_of_names(list: Seq<Seq<char>>, between: char)
    requires
        is_separator(between),
        are_plain_names(list),
        list.len() >= 1,
    ensures
        segments(joined(list, seq![between])) == list,
        joined(list, seq![between]).len() > 0,
        !has_root(joined(list, seq![between])),
        !is_separator(joined(list, seq![between]).last()),
{
    assert(is_plain(list[0]) && is_name(list[0]));
    assert(is_plain(list[list.len() - 1]) && is_name(list[list.len() - 1]));
    assert forall|i: int| 0 <= i < list.len() implies (#[trigger] list[i]).len() > 0 by {
        assert(is_name(list[i]));
    }
    lemma_ends_of_joined_names(list, between);
    lemma_segments_of_joined_names(list, between);
    assert(!is_separator(list[0][0]));
    assert(!is_separator(list.last()[list.last().len() - 1]));
}

/// A path that does not begin at the root and whose segments are names,
/// but perhaps for an empty one at the end, is normalized to those names
/// with forward slashes between them.
proof fn lemma_normalized_of_names(path: Seq<char>, list: Seq<Seq<char>>)
    requires
        !has_root(path),
        are_plain_names(list),
        list.len() >= 1,
        segments(path) == list || segments(path) == list.push(Seq::empty()),
    ensures
        normalized(path) == joined(list, seq!['/']),
{
    assert forall|i: int| 0 <= i < list.len() implies is_name(#[trigger] list[i]) by {}
    lemma_names_of_names(list);
    list.lemma_filter_push(Seq::empty(), name_test());
    assert(is_name(list[0]));
    assert(segments(path)[0] == list[0]);
    assert(names(segments(path)) == list);
}

/// Where the base directory and the relative path are made of names, with
/// forward slashes or backslashes between them, the destination is made of
/// the names of the base followed by those of the relative path, with
/// forward slashes between them.
pub proof fn lemma_destination_of_names(
    base_names: Seq<Seq<char>>,
    base_separator: char,
    relative_names: Seq<Seq<char>>,
    relative_separator: char,
)
    requires
        is_separator(base_separator),
        is_separator(relative_separator),
        are_plain_names(base_names),
        are_plain_names(relative_names),
    ensures
        destination_of(
            joined(base_names, seq![base_separator]),
            joined(relative_names, seq![relative_separator]),
        ) == joined(base_names + relative_names, seq!['/']),
{
    let base = joined(base_names, seq![base_separator]);
    let relative = joined(relative_names, seq![relative_separator]);
    let whole = joined_path(base, relative);
    let all = base_names + relative_names;
    if base_names.len() == 0 && relative_names.len() == 0 {
        assert(whole =~= Seq::<char>::empty());
        assert(segments(whole) =~= seq![Seq::<char>::empty()]);
        Seq::<Seq<char>>::empty().lemma_filter_push(Seq::empty(), name_test());
        assert(Seq::<Seq<char>>::empty().push(Seq::<char>::empty()) =~= seq![Seq::<char>::empty()]);
        assert(names(Seq::<Seq<char>>::empty()) =~= Seq::<Seq<char>>::empty()) by {
            reveal(Seq::filter);
        }
        assert(all =~= Seq::<Seq<char>>::empty());
    } else if base_names.len() == 0 {
        lemma_text_of_names(relative_names, relative_separator);
        assert(whole =~= relative);
        assert(all =~= relative_names);
        lemma_normalized_of_names(whole, relative_names);
    } else if relative_names.len() == 0 {
        lemma_text_of_names(base_names, base_separator);
        assert(whole =~= base.push('/'));
        assert(whole.drop_last() =~= base);
        assert(whole[0] == base[0]);
        assert(all =~= base_names);
        lemma_normalized_of_names(whole, base_names);
    } else {
        lemma_text_of_names(base_names, base_separator);
        lemma_text_of_names(relative_names, relative_separator);
        assert(whole =~= base.push('/') + relative);
        assert(whole[0] == base[0]);
        assert forall|i: int| 0 <= i < relative_names.len() implies is_plain(
            #[trigger] relative_names[i],
        ) by {}
        lemma_segments_of_appended_names(base, '/', relative_names, relative_separator);
        assert forall|i: int| 0 <= i < all.len() implies is_name(#[trigger] all[i]) && is_plain(
            all[i],
        ) by {
            if i < base_names.len() {
                assert(all[i] == base_names[i]);
            } else {
                assert(all[i] == relative_names[i - base_names.len()]);
            }
        }
        lemma_normalized_of_names(whole, all);
    }
}

/// No segment of a path has a separator in it.
proof fn lemma_segments_are_plain(path: Seq<char>)
    ensures
        forall|k: int| 0 <= k < segments(path).len() ==> is_plain(#[trigger] segments(path)[k]),
    decreases path.len(),
{
    if path.len() > 0 {
        let front = segments(path.drop_last());
        lemma_segments_are_plain(path.drop_last());
        lemma_first_segment(path.drop_last());
        assert forall|k: int| 0 <= k < segments(path).len() implies is_plain(
            #[trigger] segments(path)[k],
        ) by {
            if k < front.len() - 1 {
                assert(segments(path)[k] == front[k]);
            } else if is_separator(path.last()) {
                if k == front.len() - 1 {
                    assert(segments(path)[k] == front[k]);
                }
            } else {
                assert(is_plain(front[front.len() - 1]));
            }
        }
    }
}

/// The names among texts without separators are names without separators.
proof fn lemma_names_are_plain(list: Seq<Seq<char>>)
    requires
        forall|k: int| 0 <= k < list.len() ==> is_plain(#[trigger] list[k]),
    ensures
        are_plain_names(names(list)),
    decreases list.len(),
{
    if list.len() == 0 {
        assert(names(list) =~= Seq::<Seq<char>>::empty()) by {
            reveal(Seq::filter);
        }
    } else {
        let front = list.drop_last();
        assert forall|k: int| 0 <= k < front.len() implies is_plain(#[trigger] front[k]) by {
            assert(front[k] == list[k]);
        }
        lemma_names_are_plain(front);
        front.lemma_filter_push(list.last(), name_test());
        assert(front.push(list.last()) =~= list);
        assert(is_plain(list[list.len() - 1]));
    }
}

/// Texts without a backslash, with forward slashes between them, make a
/// text without a backslash.
proof fn lemma_joined_has_no_backslash(list: Seq<Seq<char>>)
    requires
        forall|k: int| 0 <= k < list.len() ==> is_plain(#[trigger] list[k]),
    ensures
        forall|i: int|
            0 <= i < joined(list, seq!['/']).len() ==> (#[trigger] joined(list, seq!['/'])[i])
                != '\\',
    decreases list.len(),
{
    let text = joined(list, seq!['/']);
    if list.len() == 1 {
        assert(is_plain(list[0]));
    } else if list.len() > 1 {
        let front = list.drop_last();
        let head = joined(front, seq!['/']);
        assert forall|k: int| 0 <= k < front.len() implies is_plain(#[trigger] front[k]) by {
            assert(front[k] == list[k]);
        }
        lemma_joined_has_no_backslash(front);
        assert(is_plain(list[list.len() - 1]));
        assert forall|i: int| 0 <= i < text.len() implies (#[trigger] text[i]) != '\\' by {
            if i < head.len() {
                assert(text[i] == head[i]);
            } else if i == head.len() {
                assert(text[i] == '/');
            } else {
                assert(text[i] == list.last()[i - head.len() - 1]);
                assert(!is_separator(list.last()[i - head.len() - 1]));
            }
        }
    }
}

/// One or two empty segments hold no name.
proof fn lemma_no_names_in_empty_segments()
    ensures
        names(seq![Seq::<char>::empty()]) == Seq::<Seq<char>>::empty(),
        names(seq![Seq::<char>::empty(), Seq::<char>::empty()]) == Seq::<Seq<char>>::empty(),
        segments(Seq::<char>::empty()) == seq![Seq::<char>::empty()],
        segments(seq!['/']) == seq![Seq::<char>::empty(), Seq::<char>::empty()],
{
    let none = Seq::<Seq<char>>::empty();
    let empty = Seq::<char>::empty();
    assert(names(none) =~= none) by {
        reveal(Seq::filter);
    }
    none.lemma_filter_push(empty, name_test());
    assert(none.push(empty) =~= seq![empty]);
    seq![empty].lemma_filter_push(empty, name_test());
    assert(seq![empty].push(empty) =~= seq![empty, empty]);
    assert(seq!['/'].drop_last() =~= Seq::<char>::empty());
    assert(segments(Seq::<char>::empty()) =~= seq![empty]);
    assert(segments(seq!['/']) =~= segments(Seq::<char>::empty()).push(empty));
}

/// The components of a path have no separator in them; all but a leading
/// single dot are names.
proof fn lemma_components_are_plain(path: Seq<char>)
    ensures
        are_plain_names(names(segments(path))),
        forall|k: int| 0 <= k < components(path).len() ==> is_plain(#[trigger] components(path)[k]),
{
    lemma_segments_are_plain(path);
    lemma_names_are_plain(segments(path));
    let kept = names(segments(path));
    assert forall|k: int| 0 <= k < components(path).len() implies is_plain(
        #[trigger] components(path)[k],
    ) by {
        if segments(path)[0] == seq!['.'] {
            if k > 0 {
                assert(components(path)[k] == kept[k - 1]);
            }
        } else {
            assert(components(path)[k] == kept[k]);
        }
    }
}

/// A normalized path has no backslash in it: whatever separated the
/// segments of the path, forward slashes separate them afterwards.
pub proof fn lemma_normalized_has_no_backslash(path: Seq<char>)
    ensures
        forall|i: int| 0 <= i < normalized(path).len() ==> (#[trigger] normalized(path)[i]) != '\\',
{
    lemma_components_are_plain(path);
    lemma_joined_has_no_backslash(components(path));
}

/// The names of a list that begins with a segment that is no name are the
/// names of the rest.
proof fn lemma_names_after_no_name(first: Seq<char>, rest: Seq<Seq<char>>)
    requires
        !is_name(first),
        are_plain_names(rest),
    ensures
        names(seq![first] + rest) == rest,
{
    Seq::filter_distributes_over_add(seq![first], rest, name_test());
    Seq::<Seq<char>>::empty().lemma_filter_push(first, name_test());
    assert(Seq::<Seq<char>>::empty().push(first) =~= seq![first]);
    assert(names(Seq::<Seq<char>>::empty()) =~= Seq::<Seq<char>>::empty()) by {
        reveal(Seq::filter);
    }
    assert forall|i: int| 0 <= i < rest.len() implies is_name(#[trigger] rest[i]) by {}
    lemma_names_of_names(rest);
    assert(Seq::<Seq<char>>::empty() + rest =~= rest);
}

/// Normalizing a normalized path changes nothing.
pub proof fn lemma_normalized_is_stable(path: Seq<char>)
    ensures
        normalized(normalized(path)) == normalized(path),
{
    lemma_components_are_plain(path);
    lemma_first_segment(path);
    let kept = names(segments(path));
    let once = normalized(path);
    let slash = seq!['/'];
    if has_root(path) {
        assert(components(path) == kept);
        if kept.len() == 0 {
            assert(once =~= seq!['/']);
            lemma_no_names_in_empty_segments();
        } else {
            assert forall|i: int| 0 <= i < kept.len() implies is_plain(#[trigger] kept[i]) by {}
            lemma_segments_of_appended_names(Seq::empty(), '/', kept, '/');
            assert(once =~= Seq::<char>::empty().push('/') + joined(kept, slash));
            assert(segments(Seq::<char>::empty()) =~= seq![Seq::<char>::empty()]);
            lemma_names_after_no_name(Seq::empty(), kept);
            assert(segments(once)[0] == Seq::<char>::empty());
        }
    } else if segments(path)[0] == seq!['.'] {
        let dot = seq!['.'];
        let list = seq![dot] + kept;
        assert(components(path) == list);
        assert forall|i: int| 0 <= i < list.len() implies is_plain(#[trigger] list[i]) && list[i].len()
            > 0 by {
            if i > 0 {
                assert(list[i] == kept[i - 1]);
                assert(is_name(kept[i - 1]));
            }
        }
        lemma_segments_of_joined_names(list, '/');
        lemma_ends_of_joined_names(list, '/');
        assert(once[0] == '.');
        lemma_names_after_no_name(dot, kept);
        assert(segments(once)[0] == dot);
    } else {
        assert(components(path) == kept);
        if kept.len() == 0 {
            assert(once =~= Seq::<char>::empty());
            lemma_no_names_in_empty_segments();
        } else {
            lemma_text_of_names(kept, '/');
            lemma_normalized_of_names(once, kept);
        }
    }
}

} // verus!
