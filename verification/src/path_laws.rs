//! How paths are written, read, joined and parted, and how texts are read as lines.

use crate::path::{PartView, Parts};
use crate::text::Text;
use vstd::prelude::*;

verus! {

/// A name is joined behind a path. A path that begins at the root or with a prefix
/// stands for itself, but for the prefix of the path in front where it has none of its
/// own; a leading `.` adds nothing to a path, and nothing stands in front of an empty
/// path.
pub proof fn paths_are_joined(base: Parts, tail: Parts)
    ensures
        tail.len() == 0 ==> crate::path::path_join(base, tail) == base,
        base.len() == 0 ==> crate::path::path_join(base, tail) == tail,
        tail.len() > 0 && (tail[0] is Normal || tail[0] is Foreign || tail[0] is Parent)
            ==> crate::path::path_join(base, tail) == base + tail,
        tail.len() > 0 && tail[0] is Prefix ==> crate::path::path_join(base, tail) == tail,
        tail.len() > 0 && tail[0] is Root && base.len() > 0 && !(base[0] is Prefix)
            ==> crate::path::path_join(base, tail) == tail,
        tail.len() > 0 && tail[0] is Root && base.len() > 0 && base[0] is Prefix
            ==> crate::path::path_join(base, tail) == seq![base[0]] + tail,
        tail.len() > 0 && tail[0] is Current && base.len() > 0 ==> crate::path::path_join(base, tail)
            == base + tail.drop_first(),
{
}

/// What is joined behind a path lies below it, and parting undoes joining.
pub proof fn parting_undoes_joining(base: Parts, tail: Parts)
    requires
        tail.len() > 0,
        tail[0] is Normal || tail[0] is Foreign,
    ensures
        crate::path::is_under(crate::path::path_join(base, tail), base),
        crate::path::stripped(crate::path::path_join(base, tail), base) == tail,
        tail.len() == 1 ==> crate::path::parent_of(crate::path::path_join(base, tail)) == Some(
            base,
        ),
        crate::path::last_name(crate::path::path_join(base, tail)) == crate::path::last_name(tail),
{
    let path = crate::path::path_join(base, tail);
    assert(path.subrange(0, base.len() as int) =~= base);
    assert(path.skip(base.len() as int) =~= tail);
    if tail.len() == 1 {
        assert(path.drop_last() =~= base);
    }
}

/// A path lies below another exactly where it begins with all of its parts; a folder
/// whose name only begins like another's does not.
pub proof fn paths_lie_below_what_they_begin_with(path: Parts, base: Parts, rest: Parts)
    ensures
        crate::path::is_under(base + rest, base),
        crate::path::is_under(path, path),
        crate::path::is_under(path, base) <==> base.is_prefix_of(path),
        crate::path::is_under(path, base) ==> path == base + crate::path::stripped(path, base),
{
    assert((base + rest).subrange(0, base.len() as int) =~= base);
    assert(path.subrange(0, path.len() as int) =~= path);
    if crate::path::is_under(path, base) {
        assert(path =~= base + path.skip(base.len() as int));
    }
}

/// The last part of a path is its name where it is one; the path without it is where
/// the name stands. The root and a prefix stand nowhere.
pub proof fn names_stand_in_their_folder(path: Parts)
    requires
        path.len() > 0,
    ensures
        path.last() is Normal || path.last() is Foreign ==> crate::path::last_name(path) == Some(
            path.last(),
        ),
        path.last() is Root || path.last() is Prefix || path.last() is Current
            || path.last() is Parent ==> crate::path::last_name(path) is None,
        path.last() is Root || path.last() is Prefix ==> crate::path::parent_of(path) is None,
        !(path.last() is Root || path.last() is Prefix) ==> crate::path::parent_of(path) == Some(
            path.drop_last(),
        ),
        crate::path::last_name(Parts::empty()) is None,
        crate::path::parent_of(Parts::empty()) is None,
{
}

/// How a path is written: the root as a slash, and each part behind a slash, but for
/// the first and the one behind the root.
pub proof fn paths_are_written_with_slashes(front: Parts, name: Text)
    requires
        front.len() > 0,
        !(front[0] is Prefix),
    ensures
        crate::path::path_text(Parts::empty()).len() == 0,
        crate::path::path_text(seq![PartView::Root]) == "/"@,
        crate::path::path_text(seq![PartView::Current]) == "."@,
        crate::path::path_text(seq![PartView::Parent]) == ".."@,
        crate::path::path_text(seq![PartView::Normal(name)]) == name,
        front.last() is Root ==> crate::path::path_text(front.push(PartView::Normal(name)))
            == crate::path::path_text(front) + name,
        !(front.last() is Root) && !(front.last() is Prefix) ==> crate::path::path_text(
            front.push(PartView::Normal(name)),
        ) == crate::path::path_text(front) + "/"@ + name,
        !(front.last() is Root) && !(front.last() is Prefix) ==> crate::path::path_text(
            front.push(PartView::Parent),
        ) == crate::path::path_text(front) + "/"@ + ".."@,
{
    reveal_with_fuel(crate::path::written, 2);
    assert(front.push(PartView::Normal(name)).drop_last() =~= front);
    assert(front.push(PartView::Parent).drop_last() =~= front);
    if front.last() is Root {
        assert(crate::path::path_text(front.push(PartView::Normal(name)))
            =~= crate::path::path_text(front) + name);
    }
}

/// The parts that a piece of a text between slashes names, behind the first piece.
pub open spec fn named_by(piece: Text) -> Parts {
    if piece.len() == 0 || piece == "."@ {
        Parts::empty()
    } else if piece == ".."@ {
        seq![PartView::Parent]
    } else {
        seq![PartView::Normal(piece)]
    }
}

/// The character that is looked for is found at the same place with more text behind
/// it.
proof fn lemma_find_in_front(front: Text, back: Text, c: char, from: int)
    requires
        0 <= from <= front.len(),
        back.len() > 0,
        back[0] == c,
    ensures
        crate::text::find_from(front + back, c, from) == crate::text::find_from(front, c, from),
    decreases front.len() - from,
{
    if from < front.len() {
        assert((front + back)[from] == front[from]);
        lemma_find_in_front(front, back, c, from + 1);
    } else {
        assert((front + back)[from] == c);
    }
}

/// A character that does not occur is found at the end.
proof fn lemma_find_none(text: Text, c: char, from: int)
    requires
        0 <= from <= text.len(),
        forall|i: int| from <= i < text.len() ==> text[i] != c,
    ensures
        crate::text::find_from(text, c, from) == text.len(),
    decreases text.len() - from,
{
    if from < text.len() {
        lemma_find_none(text, c, from + 1);
    }
}

/// One more piece behind a slash names one more part.
proof fn lemma_one_more_piece(front: Text, piece: Text, from: int)
    requires
        0 <= from <= front.len(),
        !piece.contains('/'),
    ensures
        crate::path::pieces_from(front.push('/') + piece, from) == crate::path::pieces_from(
            front,
            from,
        ) + named_by(piece),
    decreases front.len() - from,
{
    let all = front.push('/') + piece;
    let back = seq!['/'] + piece;
    assert(all =~= front + back);
    lemma_find_in_front(front, back, '/', from);
    crate::text::lemma_find_from(front, '/', from);
    let end = crate::text::find_from(front, '/', from);
    assert(all.subrange(from, end) =~= front.subrange(from, end));
    if end < front.len() {
        lemma_one_more_piece(front, piece, end + 1);
        assert(crate::path::piece_parts(front, from, end) + (crate::path::pieces_from(front, end + 1)
            + named_by(piece)) =~= crate::path::piece_parts(front, from, end)
            + crate::path::pieces_from(front, end + 1) + named_by(piece));
    } else {
        let behind = front.len() as int + 1;
        assert forall|i: int| behind <= i < all.len() implies all[i] != '/' by {
            assert(all[i] == piece[i - behind]);
            assert(piece.contains(piece[i - behind]));
        }
        lemma_find_none(all, '/', behind);
        assert(all.subrange(behind, all.len() as int) =~= piece);
        reveal_with_fuel(crate::path::pieces_from, 2);
        assert(crate::path::pieces_from(all, behind) == named_by(piece));
    }
}

/// What a text names: pieces between slashes, each a name but for `..`, which is the
/// folder above, and for empty pieces and `.`, which add nothing behind the first. A
/// slash in front is the root.
pub proof fn texts_name_their_parts(front: Text, piece: Text)
    requires
        !piece.contains('/'),
    ensures
        crate::path::portable_parts(Seq::empty()).len() == 0,
        piece == "."@ ==> crate::path::portable_parts(piece) == seq![PartView::Current],
        piece == ".."@ ==> crate::path::portable_parts(piece) == seq![PartView::Parent],
        piece.len() > 0 && piece != "."@ && piece != ".."@ ==> crate::path::portable_parts(piece)
            == seq![PartView::Normal(piece)],
        crate::path::portable_parts(seq!['/'] + piece) == seq![PartView::Root] + named_by(piece),
        front.len() > 0 ==> crate::path::portable_parts(front.push('/') + piece)
            == crate::path::portable_parts(front) + named_by(piece),
{
    reveal_with_fuel(crate::path::pieces_from, 2);
    assert forall|i: int| 0 <= i < piece.len() implies piece[i] != '/' by {
        assert(piece.contains(piece[i]));
    }
    reveal_strlit(".");
    reveal_strlit("..");
    lemma_find_none(piece, '/', 0);
    assert(piece.subrange(0, piece.len() as int) =~= piece);
    assert(Parts::empty() + crate::path::pieces_from(piece, 0) =~= crate::path::pieces_from(
        piece,
        0,
    ));
    let nothing: Text = Seq::empty();
    lemma_find_none(nothing, '/', 0);
    assert(nothing.subrange(0, 0) =~= nothing);
    assert(crate::path::pieces_from(nothing, 0) =~= Parts::empty());
    lemma_one_more_piece(nothing, piece, 0);
    assert(nothing.push('/') + piece =~= seq!['/'] + piece);
    assert((seq!['/'] + piece)[0] == '/');
    assert(crate::path::portable_parts(seq!['/'] + piece) =~= seq![PartView::Root] + named_by(piece));
    if front.len() > 0 {
        lemma_one_more_piece(front, piece, 0);
        assert((front.push('/') + piece)[0] == front[0]);
        assert(crate::path::portable_parts(front.push('/') + piece)
            =~= crate::path::portable_parts(front) + named_by(piece));
    }
}

/// A character is looked for beyond a text in front as if that text were not there.
proof fn lemma_find_behind(front: Text, back: Text, c: char, from: int)
    requires
        0 <= from <= back.len(),
    ensures
        crate::text::find_from(front + back, c, front.len() + from) == front.len()
            + crate::text::find_from(back, c, from),
    decreases back.len() - from,
{
    if from < back.len() {
        assert((front + back)[front.len() + from] == back[from]);
        lemma_find_behind(front, back, c, from + 1);
    }
}

/// A character that does not stand in a piece of a text is not found there.
proof fn lemma_find_past(text: Text, c: char, from: int, to: int)
    requires
        0 <= from <= to <= text.len(),
        forall|i: int| from <= i < to ==> text[i] != c,
    ensures
        crate::text::find_from(text, c, from) == crate::text::find_from(text, c, to),
    decreases to - from,
{
    if from < to {
        lemma_find_past(text, c, from + 1, to);
    }
}

/// Lines beyond a text in front are those of the text behind.
proof fn lemma_lines_behind(front: Text, back: Text, from: int)
    requires
        0 <= from <= back.len(),
    ensures
        crate::text::lines_from(front + back, front.len() + from) == crate::text::lines_from(
            back,
            from,
        ),
    decreases back.len() - from,
{
    if from < back.len() {
        let all = front + back;
        lemma_find_behind(front, back, '\n', from);
        crate::text::lemma_find_from(back, '\n', from);
        let end = crate::text::find_from(back, '\n', from);
        assert(all.subrange(front.len() + from, all.len() as int) =~= back.subrange(
            from,
            back.len() as int,
        ));
        if end < back.len() {
            assert(all.subrange(front.len() + from, front.len() + end) =~= back.subrange(from, end));
            lemma_lines_behind(front, back, end + 1);
        }
    }
}

/// A text is read line by line: a line ends at a line feed, with the carriage return
/// before it where there is one, and the last line needs no end. No line is left out,
/// and an empty text has none.
pub proof fn texts_are_read_line_by_line(line: Text, rest: Text)
    requires
        !line.contains('\n'),
    ensures
        crate::text::lines_of(Seq::empty()).len() == 0,
        line.len() > 0 ==> crate::text::lines_of(line) == seq![line],
        line.len() == 0 || line.last() != '\r' ==> crate::text::lines_of(line.push('\n') + rest)
            == seq![line] + crate::text::lines_of(rest),
        crate::text::lines_of(line.push('\r').push('\n') + rest) == seq![line]
            + crate::text::lines_of(rest),
{
    assert forall|i: int| 0 <= i < line.len() implies line[i] != '\n' by {
        if line[i] == '\n' {
            assert(line.contains('\n'));
        }
    }
    lemma_find_past(line, '\n', 0, line.len() as int);
    assert(line.subrange(0, line.len() as int) =~= line);
    let plain = line.push('\n') + rest;
    lemma_find_past(plain, '\n', 0, line.len() as int);
    assert(plain[line.len() as int] == '\n');
    assert(plain.subrange(0, line.len() as int) =~= line);
    lemma_lines_behind(line.push('\n'), rest, 0);
    let returned = line.push('\r').push('\n') + rest;
    assert(returned[line.len() as int] == '\r');
    assert(returned[line.len() as int + 1] == '\n');
    lemma_find_past(returned, '\n', 0, line.len() as int + 1);
    assert(returned.subrange(0, line.len() as int + 1) =~= line.push('\r'));
    assert(line.push('\r').drop_last() =~= line);
    lemma_lines_behind(line.push('\r').push('\n'), rest, 0);
}

/// Texts are ordered by the first character in which they differ, and a text that goes
/// on comes behind one that ends.
pub proof fn texts_are_ordered_by_their_first_difference(
    front: Text,
    a: char,
    b: char,
    x: Text,
    y: Text,
)
    requires
        a < b,
    ensures
        crate::text::text_le(front + seq![a] + x, front + seq![b] + y),
        !crate::text::text_le(front + seq![b] + y, front + seq![a] + x),
        crate::text::text_le(front, front + seq![b] + y),
        !crate::text::text_le(front + seq![b] + y, front),
        crate::text::text_le(front, front),
    decreases front.len(),
{
    let less = front + seq![a] + x;
    let more = front + seq![b] + y;
    reveal_with_fuel(crate::text::text_le, 2);
    if front.len() > 0 {
        let rest = front.drop_first();
        texts_are_ordered_by_their_first_difference(rest, a, b, x, y);
        assert(less.drop_first() =~= rest + seq![a] + x);
        assert(more.drop_first() =~= rest + seq![b] + y);
        assert(less[0] == front[0] && more[0] == front[0]);
    } else {
        assert(less[0] == a && more[0] == b);
    }
}

/// All characters up to the first blank are taken.
proof fn lemma_until_blank(word: Text, rest: Text)
    requires
        forall|i: int| 0 <= i < word.len() ==> !crate::text::is_blank(#[trigger] word[i]),
        rest.len() > 0 ==> crate::text::is_blank(rest[0]),
    ensures
        crate::text::until_blank(word + rest) == word,
    decreases word.len(),
{
    if word.len() > 0 {
        let tail = word.drop_first();
        lemma_until_blank(tail, rest);
        assert((word + rest).drop_first() =~= tail + rest);
        assert((word + rest)[0] == word[0]);
        assert(seq![word[0]] + tail =~= word);
    } else {
        assert(word + rest =~= rest);
        assert(word =~= Seq::<char>::empty());
    }
}

/// Blanks in front are passed over.
proof fn lemma_blanks_passed(front: Text, text: Text)
    requires
        forall|i: int| 0 <= i < front.len() ==> crate::text::is_blank(#[trigger] front[i]),
        text.len() > 0 ==> !crate::text::is_blank(text[0]),
    ensures
        crate::text::without_head(front + text, crate::text::Trimmed::Blank) == text,
    decreases front.len(),
{
    if front.len() > 0 {
        lemma_blanks_passed(front.drop_first(), text);
        assert((front + text).drop_first() =~= front.drop_first() + text);
        assert((front + text)[0] == front[0]);
    } else {
        assert(front + text =~= text);
    }
}

/// The first word of a text is what stands between the blanks in front and the next
/// blank; a text of blanks has none.
pub proof fn first_words_end_at_blanks(front: Text, word: Text, rest: Text)
    requires
        forall|i: int| 0 <= i < front.len() ==> crate::text::is_blank(#[trigger] front[i]),
        forall|i: int| 0 <= i < word.len() ==> !crate::text::is_blank(#[trigger] word[i]),
        rest.len() > 0 ==> crate::text::is_blank(rest[0]),
    ensures
        word.len() > 0 ==> crate::text::first_word_of(front + (word + rest)) == Some(word),
        crate::text::first_word_of(front) is None,
{
    lemma_until_blank(word, rest);
    if word.len() > 0 {
        assert((word + rest)[0] == word[0]);
        lemma_blanks_passed(front, word + rest);
    }
    lemma_blanks_passed(front, Seq::empty());
    assert(front + Seq::<char>::empty() =~= front);
}

/// A text begins with its front and ends with its back, and with no other text as long.
pub proof fn texts_begin_and_end_as_they_do(front: Text, back: Text, other: Text)
    ensures
        crate::text::begins_with(front + back, front),
        crate::text::ends_with(front + back, back),
        other.len() == front.len() && other != front ==> !crate::text::begins_with(
            front + back,
            other,
        ),
        other.len() == back.len() && other != back ==> !crate::text::ends_with(front + back, other),
        other.len() > front.len() + back.len() ==> !crate::text::begins_with(front + back, other)
            && !crate::text::ends_with(front + back, other),
{
    let all = front + back;
    assert(all.subrange(0, front.len() as int) =~= front);
    assert(all.subrange(all.len() - back.len(), all.len() as int) =~= back);
}

/// Paths that begin with a prefix of backslashes are written with backslashes, and all
/// others with slashes.
pub proof fn paths_are_written_in_their_own_manner(path: Parts)
    ensures
        path.len() == 0 || !(path[0] is Prefix) ==> crate::path::separator_of(path) == "/"@,
        path.len() > 0 && path[0] is Prefix && path[0]->Prefix_0.len() > 0
            && path[0]->Prefix_0[0] == '\\' ==> crate::path::separator_of(path) == "\\"@,
        path.len() > 0 && path[0] is Prefix && path[0]->Prefix_0.len() > 0
            && path[0]->Prefix_0[0] != '\\' ==> crate::path::separator_of(path) == "/"@,
{
}

} // verus!
