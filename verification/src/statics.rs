//! The files of the panel.
use vstd::prelude::*;

use crate::paths;
use crate::paths::FilePath;
use crate::text;

verus! {

/// A part of a path.
#[derive(Debug)]
pub enum PathPart {
    /// What stands before a path on some systems, such as the name of a drive.
    Prefix,
    /// The top of all directories.
    Root,
    /// The directory itself.
    Current,
    /// The directory above.
    Parent,
    /// The name of a file or of a directory.
    Normal(String),
}

/// What a [`PathPart`] holds.
pub enum PartView {
    Prefix,
    Root,
    Current,
    Parent,
    Normal(Seq<char>),
}

impl View for PathPart {
    type V = PartView;

    open spec fn view(&self) -> PartView {
        match self {
            PathPart::Prefix => PartView::Prefix,
            PathPart::Root => PartView::Root,
            PathPart::Current => PartView::Current,
            PathPart::Parent => PartView::Parent,
            PathPart::Normal(s) => PartView::Normal(s@),
        }
    }
}

/// What the parts of a list hold.
pub open spec fn parts_of(v: Seq<PathPart>) -> Seq<PartView> {
    Seq::new(v.len(), |i: int| v[i]@)
}

/// Whether a text is a name: it is not empty, and leads neither nowhere nor up.
pub open spec fn is_name(s: Seq<char>) -> bool {
    s.len() > 0 && s != "."@ && s != ".."@
}

/// Whether a text is a single name, of something in a directory: it holds no slash.
pub open spec fn stays(s: Seq<char>) -> bool {
    is_name(s) && !s.contains('/')
}

/// The names among the parts of a path, in order.
pub open spec fn normal_names(parts: Seq<PartView>) -> Seq<Seq<char>>
    decreases parts.len(),
{
    if parts.len() == 0 {
        Seq::empty()
    } else {
        match parts.last() {
            PartView::Normal(s) => normal_names(parts.drop_last()).push(s),
            _ => normal_names(parts.drop_last()),
        }
    }
}

/// The pieces that are single names, in order.
pub open spec fn staying(pieces: Seq<Seq<char>>) -> Seq<Seq<char>>
    decreases pieces.len(),
{
    if pieces.len() == 0 {
        Seq::empty()
    } else if stays(pieces.last()) {
        staying(pieces.drop_last()).push(pieces.last())
    } else {
        staying(pieces.drop_last())
    }
}

/// Whether every system splits a path in the same way: it begins with one slash at most, and holds
/// neither the other separator that some systems have nor, at its front, the letter of a drive.
pub open spec fn is_plain(path: Seq<char>) -> bool {
    &&& path.len() < 2 || path[0] != '/' || path[1] != '/'
    &&& path.len() < 2 || path[1] != ':'
    &&& !path.contains('\\')
}

/// Whether each normal part is a name, and a single one where that is asked for.
pub open spec fn are_names(parts: Seq<PartView>, single: bool) -> bool {
    forall|i: int|
        0 <= i < parts.len() ==> (#[trigger] parts[i] matches PartView::Normal(s) ==> is_name(s) && (
        single ==> stays(s)))
}

/// Calls `std::path::Path::components`, which splits a path as the system does. What it calls a
/// normal component is a name on each system; in a path without a backslash it holds no slash. A path
/// that every system splits in the same way is split at its slashes: its normal components are what
/// stands between them, but for what is empty, `.` or `..`. How any other path is split is left
/// unsaid.
#[verifier::external_body]
fn components(path: &str) -> (r: Vec<PathPart>)
    ensures
        are_names(parts_of(r@), !path@.contains('\\')),
        is_plain(path@) ==> normal_names(parts_of(r@)) == staying(text::split_on(path@, '/')),
{
    std::path::Path::new(path).components().map(|c| match c {
        std::path::Component::Prefix(_) => PathPart::Prefix,
        std::path::Component::RootDir => PathPart::Root,
        std::path::Component::CurDir => PathPart::Current,
        std::path::Component::ParentDir => PathPart::Parent,
        std::path::Component::Normal(s) => PathPart::Normal(s.to_string_lossy().into_owned()),
    }).collect()
}

/// The content type that goes with the extension of a name.
pub uninterp spec fn mime_of(extension: Seq<char>) -> Seq<char>;

/// Calls `mime_guess::from_ext` and takes the first guess. The content type is named, not
/// described; for an extension without a guess, such as the empty one, it is that of any bytes.
#[verifier::external_body]
fn guess_mime(extension: &str) -> (r: String)
    ensures
        r@ == mime_of(extension@),
        extension@.len() == 0 ==> r@ == "application/octet-stream"@,
{
    mime_guess::from_ext(extension).first_or_octet_stream().to_string()
}

/// The names among the parts of a path, in order.
pub fn keep_normal(parts: &Vec<PathPart>) -> (r: Vec<String>)
    ensures
        text::texts(r@) == normal_names(parts_of(parts@)),
{
    let mut out: Vec<String> = Vec::new();
    let ghost all = parts_of(parts@);
    let n: usize = parts.len();
    assert(text::texts(out@) =~= Seq::empty());
    assert(all.take(0) =~= Seq::empty());
    for i in 0..n
        invariant
            n == parts@.len(),
            all == parts_of(parts@),
            text::texts(out@) == normal_names(all.take(i as int)),
    {
        assert(all.take(i + 1).drop_last() =~= all.take(i as int));
        assert(all.take(i + 1).last() == parts@[i as int]@);
        if let PathPart::Normal(s) = &parts[i] {
            proof {
                text::lemma_texts_push(out@, *s);
            }
            out.push(s.clone());
        }
    }
    assert(all.take(n as int) =~= all);
    out
}

proof fn lemma_names(parts: Seq<PartView>, single: bool)
    requires
        are_names(parts, single),
    ensures
        forall|i: int|
            0 <= i < normal_names(parts).len() ==> is_name(#[trigger] normal_names(parts)[i]) && (
            single ==> stays(normal_names(parts)[i])),
    decreases parts.len(),
{
    if parts.len() > 0 {
        let init = parts.drop_last();
        assert forall|i: int| 0 <= i < init.len() implies (#[trigger] init[i] matches
            PartView::Normal(s) ==> is_name(s) && (single ==> stays(s))) by {
            assert(init[i] == parts[i]);
        }
        lemma_names(init, single);
        let before = normal_names(init);
        let all = normal_names(parts);
        assert(parts[parts.len() - 1] == parts.last());
        assert forall|i: int| 0 <= i < all.len() implies is_name(#[trigger] all[i]) && (single
            ==> stays(all[i])) by {
            if i < before.len() {
                assert(all[i] == before[i]);
            }
        }
    }
}

proof fn lemma_staying_stay(pieces: Seq<Seq<char>>)
    ensures
        forall|i: int| 0 <= i < staying(pieces).len() ==> stays(#[trigger] staying(pieces)[i]),
    decreases pieces.len(),
{
    if pieces.len() > 0 {
        lemma_staying_stay(pieces.drop_last());
        let before = staying(pieces.drop_last());
        let all = staying(pieces);
        assert forall|i: int| 0 <= i < all.len() implies stays(#[trigger] all[i]) by {
            if i < before.len() {
                assert(all[i] == before[i]);
            }
        }
    }
}

proof fn lemma_staying_whole(pieces: Seq<Seq<char>>)
    requires
        forall|i: int| 0 <= i < pieces.len() ==> stays(#[trigger] pieces[i]),
    ensures
        staying(pieces) == pieces,
    decreases pieces.len(),
{
    if pieces.len() > 0 {
        let init = pieces.drop_last();
        assert forall|i: int| 0 <= i < init.len() implies stays(#[trigger] init[i]) by {
            assert(init[i] == pieces[i]);
        }
        lemma_staying_whole(init);
        assert(stays(pieces[pieces.len() - 1]));
        assert(init.push(pieces.last()) =~= pieces);
    }
}

/// The names in a path, in order: the root, what stays where it is and what leads up are left out.
/// How the path is split is left to the system, for one that not every system splits in the same
/// way.
pub fn safe_relative(path: &str) -> (r: Vec<String>)
    ensures
        forall|i: int|
            0 <= i < text::texts(r@).len() ==> is_name(#[trigger] text::texts(r@)[i]) && (
            !path@.contains('\\') ==> stays(text::texts(r@)[i])),
        is_plain(path@) ==> text::texts(r@) == staying(text::split_on(path@, '/')),
{
    let parts = components(path);
    proof {
        lemma_names(parts_of(parts@), !path@.contains('\\'));
    }
    keep_normal(&parts)
}

/// The path of the panel that a request names: its first page where it names none.
pub open spec fn page_path(uri_path: Seq<char>) -> Seq<char> {
    let path = text::drop_leading(uri_path, '/');
    if path.len() == 0 {
        "index.html"@
    } else {
        path
    }
}

/// The path of the panel that a request names: its first page where it names none.
pub fn static_target(uri_path: &str) -> (r: String)
    ensures
        r@ == page_path(uri_path@),
{
    let path = text::trim_leading(uri_path, '/');
    if path.as_str().is_empty() {
        "index.html".to_owned()
    } else {
        path
    }
}

/// The file of the panel with the given names: below the directory of the panel.
pub fn panel_file(static_root: &str, names: &Vec<String>) -> (r: paths::FilePath)
    ensures
        r@ == (paths::PathView {
            base: static_root@,
            parts: seq!["public"@] + text::texts(names@),
        }),
{
    let mut parts: Vec<String> = vec!["public".to_owned()];
    let n: usize = names.len();
    let ghost all = text::texts(names@);
    assert(text::texts(parts@) =~= seq!["public"@] + all.take(0));
    for i in 0..n
        invariant
            n == names@.len(),
            all == text::texts(names@),
            text::texts(parts@) == seq!["public"@] + all.take(i as int),
    {
        proof {
            text::lemma_texts_push(parts@, names@[i as int]);
        }
        parts.push(names[i].clone());
        assert(seq!["public"@] + all.take(i + 1) =~= (seq!["public"@] + all.take(i as int)).push(
            all[i as int],
        ));
    }
    assert(all.take(n as int) =~= all);
    FilePath { base: static_root.to_owned(), parts }
}

/// The file of the panel that a request names: the directory of the panel comes first, and what
/// follows are names, none of which leads up.
pub fn static_file(static_root: &str, uri_path: &str) -> (r: paths::FilePath)
    ensures
        r@.base == static_root@,
        r@.parts.len() >= 1,
        r@.parts[0] == "public"@,
        forall|i: int|
            1 <= i < r@.parts.len() ==> is_name(#[trigger] r@.parts[i]) && (!page_path(
                uri_path@,
            ).contains('\\') ==> stays(r@.parts[i])),
        is_plain(page_path(uri_path@)) ==> r@.parts == seq!["public"@] + staying(
            text::split_on(page_path(uri_path@), '/'),
        ),
{
    let target = static_target(uri_path);
    let names = safe_relative(target.as_str());
    let r = panel_file(static_root, &names);
    assert forall|i: int| 1 <= i < r@.parts.len() implies is_name(#[trigger] r@.parts[i]) && (
    !page_path(uri_path@).contains('\\') ==> stays(r@.parts[i])) by {
        assert(r@.parts[i] == text::texts(names@)[i - 1]);
    }
    r
}

/// A path that is made of names with slashes between them names the file with these names.
pub proof fn law_named_file_is_found(names: Seq<Seq<char>>)
    requires
        names.len() > 0,
        forall|i: int| 0 <= i < names.len() ==> stays(#[trigger] names[i]),
    ensures
        staying(text::split_on(text::joined(names, "/"@), '/')) == names,
{
    reveal_strlit("/");
    assert("/"@ =~= seq!['/']);
    assert forall|i: int| 0 <= i < names.len() implies !(#[trigger] names[i]).contains('/') by {
        assert(stays(names[i]));
    }
    text::lemma_joined_split(names, '/');
    lemma_staying_whole(names);
}

proof fn lemma_joined_free(parts: Seq<Seq<char>>, sep: Seq<char>, c: char)
    requires
        forall|i: int| 0 <= i < parts.len() ==> !(#[trigger] parts[i]).contains(c),
        !sep.contains(c),
    ensures
        !text::joined(parts, sep).contains(c),
    decreases parts.len(),
{
    let whole = text::joined(parts, sep);
    if parts.len() > 1 {
        let init = parts.drop_last();
        assert forall|i: int| 0 <= i < init.len() implies !(#[trigger] init[i]).contains(c) by {
            assert(init[i] == parts[i]);
        }
        lemma_joined_free(init, sep, c);
        assert(!parts[parts.len() - 1].contains(c));
        let head = text::joined(init, sep);
        if whole.contains(c) {
            let k = choose|k: int| 0 <= k < whole.len() && whole[k] == c;
            if k < head.len() {
                assert(head[k] == c);
            } else if k < head.len() + sep.len() {
                assert(sep[k - head.len()] == c);
            } else {
                assert(parts.last()[k - head.len() - sep.len()] == c);
            }
        }
    } else if parts.len() == 1 {
        assert(!parts[0].contains(c));
    }
}

proof fn lemma_pieces_free(s: Seq<char>, sep: char, c: char)
    requires
        !s.contains(c),
    ensures
        forall|i: int|
            0 <= i < text::split_on(s, sep).len() ==> !(#[trigger] text::split_on(s, sep)[i]).contains(
                c,
            ),
    decreases s.len(),
{
    text::lemma_first_at(s, sep);
    let k = text::first_at(s, sep);
    let pieces = text::split_on(s, sep);
    if k < s.len() {
        let head = s.take(k);
        let tail = s.skip(k + 1);
        assert(!head.contains(c)) by {
            if head.contains(c) {
                let i = choose|i: int| 0 <= i < head.len() && head[i] == c;
                assert(s[i] == c);
            }
        }
        assert(!tail.contains(c)) by {
            if tail.contains(c) {
                let i = choose|i: int| 0 <= i < tail.len() && tail[i] == c;
                assert(s[i + k + 1] == c);
            }
        }
        lemma_pieces_free(tail, sep, c);
        assert forall|i: int| 0 <= i < pieces.len() implies !(#[trigger] pieces[i]).contains(c) by {
            if i > 0 {
                assert(pieces[i] == text::split_on(tail, sep)[i - 1]);
            }
        }
    }
}

proof fn lemma_staying_among(pieces: Seq<Seq<char>>, c: char)
    requires
        forall|i: int| 0 <= i < pieces.len() ==> !(#[trigger] pieces[i]).contains(c),
    ensures
        forall|i: int|
            0 <= i < staying(pieces).len() ==> !(#[trigger] staying(pieces)[i]).contains(c),
    decreases pieces.len(),
{
    if pieces.len() > 0 {
        let init = pieces.drop_last();
        assert forall|i: int| 0 <= i < init.len() implies !(#[trigger] init[i]).contains(c) by {
            assert(init[i] == pieces[i]);
        }
        lemma_staying_among(init, c);
        assert(!pieces[pieces.len() - 1].contains(c));
        let before = staying(init);
        let all = staying(pieces);
        assert forall|i: int| 0 <= i < all.len() implies !(#[trigger] all[i]).contains(c) by {
            if i < before.len() {
                assert(all[i] == before[i]);
            }
        }
    }
}

proof fn lemma_joined_begins(parts: Seq<Seq<char>>, sep: Seq<char>)
    requires
        parts.len() > 0,
        parts[0].len() > 0,
        sep.len() > 0,
    ensures
        text::joined(parts, sep).len() > 0,
        text::joined(parts, sep)[0] == parts[0][0],
        text::joined(parts, sep).len() > 1 ==> text::joined(parts, sep)[1] == (if parts[0].len()
            > 1 {
            parts[0][1]
        } else {
            sep[0]
        }),
    decreases parts.len(),
{
    if parts.len() > 1 {
        assert(parts.drop_last()[0] == parts[0]);
        lemma_joined_begins(parts.drop_last(), sep);
        let head = text::joined(parts.drop_last(), sep);
        if head.len() == 1 {
            lemma_joined_short(parts.drop_last(), sep);
        }
    }
}

proof fn lemma_joined_short(parts: Seq<Seq<char>>, sep: Seq<char>)
    requires
        parts.len() > 0,
        parts[0].len() > 0,
        sep.len() > 0,
        text::joined(parts, sep).len() == 1,
    ensures
        parts[0].len() == 1,
    decreases parts.len(),
{
    if parts.len() > 1 {
        assert(parts.drop_last()[0] == parts[0]);
        lemma_joined_begins(parts.drop_last(), sep);
    }
}

/// The names of a path, put together again with slashes between them, are a path with the same
/// names. Every system splits it in the same way, unless the first name has the form of the letter
/// of a drive.
pub proof fn law_kept_names_are_kept_again(path: Seq<char>)
    requires
        is_plain(path),
    ensures
        ({
            let names = staying(text::split_on(path, '/'));
            let again = text::joined(names, "/"@);
            &&& staying(text::split_on(again, '/')) == names
            &&& is_plain(again) || (names[0].len() > 1 && names[0][1] == ':')
        }),
{
    reveal_strlit("/");
    let pieces = text::split_on(path, '/');
    let names = staying(pieces);
    let again = text::joined(names, "/"@);
    lemma_staying_stay(pieces);
    lemma_pieces_free(path, '/', '\\');
    lemma_staying_among(pieces, '\\');
    lemma_joined_free(names, "/"@, '\\');
    if names.len() > 0 {
        law_named_file_is_found(names);
        lemma_joined_begins(names, "/"@);
        assert(stays(names[0]));
        assert(names[0].contains(names[0][0]));
    } else {
        reveal_with_fuel(staying, 2);
        assert(again =~= Seq::empty());
        text::lemma_first_at(again, '/');
        assert(text::split_on(again, '/') =~= seq![again]);
        assert(seq![again].drop_last() =~= Seq::<Seq<char>>::empty());
    }
}

/// The extension of a name: what follows its last dot, where something stands before that.
pub open spec fn extension(name: Seq<char>) -> Seq<char> {
    let stem = text::before_last(name, '.');
    if stem.len() == 0 || stem.len() == name.len() {
        Seq::empty()
    } else {
        name.skip(stem.len() as int + 1)
    }
}

/// The extension of a name: what follows its last dot, where something stands before that.
pub fn extension_of(name: &str) -> (r: String)
    ensures
        r@ == extension(name@),
{
    let stem = text::until_last(name, '.');
    let chars = text::chars_of(name);
    let n: usize = text::chars_of(stem.as_str()).len();
    proof {
        text::lemma_before_last_len(name@, '.');
    }
    if n == 0 || n == chars.len() {
        return String::new();
    }
    assert(chars@.subrange(n as int + 1, chars@.len() as int) =~= name@.skip(n as int + 1));
    text::slice_text(&chars, n + 1, chars.len())
}

/// The content type of a file, by the last of its names.
pub fn content_type(file: &paths::FilePath) -> (r: String)
    ensures
        r@ == (if file@.parts.len() == 0 {
            mime_of(Seq::empty())
        } else {
            mime_of(extension(file@.parts.last()))
        }),
{
    let n: usize = file.parts.len();
    if n == 0 {
        proof {
            reveal_strlit("");
            assert(""@ =~= Seq::empty());
        }
        return guess_mime("");
    }
    let e = extension_of(file.parts[n - 1].as_str());
    assert(file@.parts.last() == file.parts@[n - 1]@);
    guess_mime(e.as_str())
}

/// A path is that of the panel without the slash in front; the empty one is that of the first page.
pub proof fn law_requests_name_their_page(path: Seq<char>)
    requires
        path.len() > 0,
        path[0] != '/',
    ensures
        page_path(seq!['/'] + path) == path,
        page_path(path) == path,
        page_path(seq!['/']) == "index.html"@,
        page_path(Seq::empty()) == "index.html"@,
{
    reveal_with_fuel(text::drop_leading, 2);
    assert((seq!['/'] + path).skip(1) =~= path);
    assert(seq!['/'].skip(1) =~= Seq::<char>::empty());
}

/// The extension of a name is what follows its last dot; a name without a dot, and one that only
/// begins with a dot, has none.
pub proof fn law_extension_follows_the_last_dot(stem: Seq<char>, ext: Seq<char>)
    requires
        !ext.contains('.'),
    ensures
        stem.len() > 0 ==> extension(stem + seq!['.'] + ext) == ext,
        extension(seq!['.'] + ext).len() == 0,
        extension(ext).len() == 0,
{
    text::lemma_before_last_at(stem, '.', ext);
    let name = stem + seq!['.'] + ext;
    assert(name.skip(stem.len() as int + 1) =~= ext);
    text::lemma_before_last_at(Seq::empty(), '.', ext);
    assert(Seq::<char>::empty() + seq!['.'] + ext =~= seq!['.'] + ext);
}

/// The names of a path are kept, in their order; what leads elsewhere is left out.
pub proof fn law_names_are_kept(parts: Seq<PartView>, name: Seq<char>)
    ensures
        normal_names(parts.push(PartView::Normal(name))) == normal_names(parts).push(name),
        normal_names(parts.push(PartView::Parent)) == normal_names(parts),
        normal_names(parts.push(PartView::Current)) == normal_names(parts),
        normal_names(parts.push(PartView::Root)) == normal_names(parts),
        normal_names(parts.push(PartView::Prefix)) == normal_names(parts),
        normal_names(Seq::empty()).len() == 0,
{
    assert(parts.push(PartView::Normal(name)).drop_last() =~= parts);
    assert(parts.push(PartView::Parent).drop_last() =~= parts);
    assert(parts.push(PartView::Current).drop_last() =~= parts);
    assert(parts.push(PartView::Root).drop_last() =~= parts);
    assert(parts.push(PartView::Prefix).drop_last() =~= parts);
}

/// A piece of a path stays if it is a name without a slash: what is empty and what leads nowhere or
/// up does not.
pub proof fn law_only_names_stay(name: Seq<char>)
    ensures
        !stays(Seq::empty()),
        !stays("."@),
        !stays(".."@),
        name.contains('/') ==> !stays(name),
        name.len() > 2 && !name.contains('/') ==> stays(name),
        name.len() > 0 && name[0] != '.' && !name.contains('/') ==> stays(name),
{
    reveal_strlit(".");
    reveal_strlit("..");
    assert("."@[0] == '.' && ".."@[0] == '.');
    assert("."@.len() == 1 && ".."@.len() == 2);
}

} // verus!
