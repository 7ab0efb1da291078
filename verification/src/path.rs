//! Slash-separated paths as text: their last name, their parent, their extension and their
//! components. A trailing slash, a doubled slash and an inner `.` carry no meaning.
use vstd::prelude::*;

use crate::text;

verus! {

/// A path without what its end says twice: trailing slashes and trailing `/.` parts.
pub open spec fn body(p: Seq<char>) -> Seq<char>
    decreases p.len(),
{
    if p.len() > 0 && p.last() == '/' {
        body(p.drop_last())
    } else if p.len() >= 2 && p.last() == '.' && p[p.len() - 2] == '/' {
        body(p.drop_last())
    } else {
        p
    }
}

/// What stands after the last slash.
pub open spec fn last_part(p: Seq<char>) -> Seq<char> {
    p.skip(text::rfind(p, '/') + 1)
}

/// Whether a last part names something: the empty part, `.` and `..` do not.
pub open spec fn is_name(part: Seq<char>) -> bool {
    part.len() > 0 && part != seq!['.'] && part != seq!['.', '.']
}

/// The last name of a path.
pub open spec fn file_name(p: Seq<char>) -> Option<Seq<char>> {
    let part = last_part(body(p));
    if is_name(part) {
        Some(part)
    } else {
        None
    }
}

/// How much of a name stands before its extension. A name's first character never starts one.
pub open spec fn stem_len(name: Seq<char>) -> int {
    let k = text::rfind(name, '.');
    if k <= 0 {
        name.len() as int
    } else {
        k
    }
}

/// The extension of a path's last name.
pub open spec fn extension(p: Seq<char>) -> Option<Seq<char>> {
    match file_name(p) {
        Some(name) => if stem_len(name) < name.len() {
            Some(name.skip(stem_len(name) + 1))
        } else {
            None
        },
        None => None,
    }
}

/// A path with the extension of its last name replaced, or taken away where `ext` is empty.
pub open spec fn with_extension(p: Seq<char>, ext: Seq<char>) -> Seq<char> {
    match file_name(p) {
        Some(name) => {
            let b = body(p);
            let stem = b.take(b.len() - name.len() + stem_len(name));
            if ext.len() == 0 {
                stem
            } else {
                stem.push('.') + ext
            }
        },
        None => p,
    }
}

/// A path without its last part. A root and the empty path have none to take away.
pub open spec fn parent(p: Seq<char>) -> Option<Seq<char>> {
    let b = body(p);
    if b.len() == 0 {
        None
    } else {
        let k = text::rfind(b, '/');
        if k < 0 {
            Some(Seq::empty())
        } else if body(b.take(k)).len() == 0 {
            Some(seq!['/'])
        } else {
            Some(body(b.take(k)))
        }
    }
}

/// Whether a path starts at the root.
pub open spec fn is_absolute(p: Seq<char>) -> bool {
    p.len() > 0 && p[0] == '/'
}

/// `p` as seen from `base`.
pub open spec fn join(base: Seq<char>, p: Seq<char>) -> Seq<char> {
    if is_absolute(p) {
        p
    } else if base.len() == 0 || base.last() == '/' {
        base + p
    } else {
        base.push('/') + p
    }
}

/// The parts that count, of the parts between slashes: the empty ones do not, and of the `.`
/// parts only one at the very start does.
pub open spec fn counting_parts(parts: Seq<Seq<char>>) -> Seq<Seq<char>>
    decreases parts.len(),
{
    if parts.len() == 0 {
        Seq::empty()
    } else {
        let before = counting_parts(parts.drop_last());
        let part = parts.last();
        if part.len() == 0 || (part == seq!['.'] && parts.len() > 1) {
            before
        } else {
            before.push(part)
        }
    }
}

/// The components of a path, the root among them.
pub open spec fn components(p: Seq<char>) -> Seq<Seq<char>> {
    if is_absolute(p) {
        seq![seq!['/']] + counting_parts(text::split(p, '/'))
    } else {
        counting_parts(text::split(p, '/'))
    }
}

/// Whether `p` lies at or below `base`, component by component.
pub open spec fn starts_with(p: Seq<char>, base: Seq<char>) -> bool {
    components(base).is_prefix_of(components(p))
}

/// What follows the first `n` parts of a path that count, from the next part on that counts.
/// `whole` tells whether `p` is the path from its very start.
pub open spec fn below_parts(p: Seq<char>, n: int, whole: bool) -> Seq<char>
    decreases p.len(),
{
    let k = text::find(p, '/') as int;
    let part = p.take(k);
    let counts = part.len() > 0 && (whole || part != seq!['.']);
    if counts && n <= 0 {
        p
    } else if k >= p.len() {
        Seq::empty()
    } else {
        below_parts(p.skip(k + 1), if counts {
            n - 1
        } else {
            n
        }, false)
    }
}

/// A path as seen from a `base` that it lies at or below.
pub open spec fn below(p: Seq<char>, base: Seq<char>) -> Option<Seq<char>> {
    if !starts_with(p, base) {
        None
    } else if is_absolute(p) && !is_absolute(base) {
        Some(if body(p).len() == 0 {
            seq!['/']
        } else {
            body(p)
        })
    } else {
        let parts = components(base).len() as int;
        Some(body(below_parts(p, if is_absolute(base) {
            parts - 1
        } else {
            parts
        }, true)))
    }
}

/// A body ends neither in a slash nor in `/.`.
pub proof fn lemma_body_is_prefix(p: Seq<char>)
    ensures
        body(p).is_prefix_of(p),
        body(p).len() > 0 ==> body(p).last() != '/',
        body(body(p)) == body(p),
    decreases p.len(),
{
    if p.len() > 0 && p.last() == '/' {
        lemma_body_is_prefix(p.drop_last());
    } else if p.len() >= 2 && p.last() == '.' && p[p.len() - 2] == '/' {
        lemma_body_is_prefix(p.drop_last());
    }
}

/// A name set behind a directory is the last name of the path.
pub proof fn lemma_name_in_directory(directory: Seq<char>, name: Seq<char>)
    requires
        directory.len() == 0 || directory.last() == '/',
        is_name(name),
        forall|i: int| 0 <= i < name.len() ==> #[trigger] name[i] != '/',
    ensures
        body(directory + name) == directory + name,
        file_name(directory + name) == Some(name),
{
    let p = directory + name;
    assert(p.last() == name.last());
    assert(name.last() != '/');
    if name.len() >= 2 {
        assert(p[p.len() - 2] == name[name.len() - 2]);
    } else if name.last() == '.' {
        assert(name =~= seq!['.']);
    }
    assert(body(p) == p);
    assert forall|j: int| directory.len() <= j < p.len() implies p[j] != '/' by {
        assert(p[j] == name[j - directory.len()]);
    }
    text::lemma_rfind_is(p, '/', directory.len() - 1);
    assert(last_part(p) =~= name);
}

/// A last name holds no slash.
pub proof fn lemma_file_name_is_plain(p: Seq<char>)
    requires
        file_name(p) is Some,
    ensures
        is_name(file_name(p)->Some_0),
        forall|i: int| 0 <= i < file_name(p)->Some_0.len() ==> #[trigger] file_name(p)->Some_0[i]
            != '/',
{
    let b = body(p);
    text::lemma_rfind(b, '/');
    let name = last_part(b);
    assert forall|i: int| 0 <= i < name.len() implies #[trigger] name[i] != '/' by {
        assert(name[i] == b[text::rfind(b, '/') + 1 + i]);
    }
}

/// The path without a meaningless end: see [`body`].
fn body_chars(chars: &[char]) -> (b: Vec<char>)
    ensures
        b@ == body(chars@),
{
    let mut end: usize = chars.len();
    assert(chars@.take(end as int) == chars@);
    while end > 0 && (chars[end - 1] == '/' || (end >= 2 && chars[end - 1] == '.' && chars[end - 2]
        == '/'))
        invariant
            end <= chars@.len(),
            body(chars@) == body(chars@.take(end as int)),
        decreases end,
    {
        let ghost seen = chars@.take(end as int);
        assert(seen.last() == chars@[end - 1]);
        assert(seen.drop_last() == chars@.take(end - 1));
        assert(end >= 2 ==> seen[end - 2] == chars@[end - 2]);
        end -= 1;
    }
    proof {
        let seen = chars@.take(end as int);
        assert(end > 0 ==> seen.last() == chars@[end - 1]);
        assert(end >= 2 ==> seen[end - 2] == chars@[end - 2]);
        assert(chars@.subrange(0, end as int) == seen);
    }
    text::slice_chars(chars, 0, end)
}

/// The last name of a body: see [`file_name`].
fn name_of_body(b: &[char]) -> (name: Option<Vec<char>>)
    ensures
        match name {
            Some(n) => is_name(last_part(b@)) && n@ == last_part(b@),
            None => !is_name(last_part(b@)),
        },
{
    let end: usize = b.len();
    let start: usize = match text::rfind_char(b, '/') {
        Some(k) => k + 1,
        None => 0,
    };
    let part = text::slice_chars(b, start, end);
    assert(part@ == last_part(b@));
    let dot = part.len() == 1 && part[0] == '.';
    let dots = part.len() == 2 && part[0] == '.' && part[1] == '.';
    proof {
        assert(dot == (part@ =~= seq!['.']));
        assert(dots == (part@ =~= seq!['.', '.']));
    }
    if part.len() == 0 || dot || dots {
        None
    } else {
        Some(part)
    }
}

/// The last name of a path: see [`file_name`].
pub fn path_file_name(path: &str) -> (name: Option<String>)
    ensures
        match (name, file_name(path@)) {
            (Some(n), Some(m)) => n@ == m,
            (None, None) => true,
            _ => false,
        },
{
    let chars = text::to_chars(path);
    let b = body_chars(chars.as_slice());
    match name_of_body(b.as_slice()) {
        Some(n) => Some(text::from_chars(n.as_slice())),
        None => None,
    }
}

fn stem_end(name: &[char]) -> (k: usize)
    ensures
        k == stem_len(name@),
        k <= name@.len(),
{
    let end: usize = name.len();
    match text::rfind_char(name, '.') {
        Some(k) => if k == 0 {
            end
        } else {
            k
        },
        None => end,
    }
}

/// The extension of a path: see [`extension`].
pub fn path_extension(path: &str) -> (ext: Option<String>)
    ensures
        match (ext, extension(path@)) {
            (Some(e), Some(x)) => e@ == x,
            (None, None) => true,
            _ => false,
        },
{
    let chars = text::to_chars(path);
    let b = body_chars(chars.as_slice());
    match name_of_body(b.as_slice()) {
        Some(n) => {
            let k = stem_end(n.as_slice());
            if k < n.len() {
                let ext = text::slice_chars(n.as_slice(), k + 1, n.len());
                assert(ext@ == n@.skip(k as int + 1));
                Some(text::from_chars(ext.as_slice()))
            } else {
                None
            }
        },
        None => None,
    }
}

/// The path with another extension: see [`with_extension`].
pub fn path_with_extension(path: &str, ext: &str) -> (result: String)
    ensures
        result@ == with_extension(path@, ext@),
{
    let chars = text::to_chars(path);
    let b = body_chars(chars.as_slice());
    match name_of_body(b.as_slice()) {
        Some(n) => {
            let k = stem_end(n.as_slice());
            proof {
                text::lemma_rfind(b@, '/');
            }
            let keep: usize = b.len() - n.len() + k;
            let stem = text::slice_chars(b.as_slice(), 0, keep);
            assert(stem@ == b@.take(keep as int));
            let mut result = text::from_chars(stem.as_slice());
            if !ext.is_empty() {
                result.push('.');
                result.append(ext);
            }
            result
        },
        None => path.to_owned(),
    }
}

/// The path without its last part: see [`parent`].
pub fn path_parent(path: &str) -> (result: Option<String>)
    ensures
        match (result, parent(path@)) {
            (Some(r), Some(q)) => r@ == q,
            (None, None) => true,
            _ => false,
        },
{
    let chars = text::to_chars(path);
    let b = body_chars(chars.as_slice());
    if b.len() == 0 {
        return None;
    }
    match text::rfind_char(b.as_slice(), '/') {
        None => Some(String::new()),
        Some(k) => {
            let before = text::slice_chars(b.as_slice(), 0, k);
            assert(before@ == b@.take(k as int));
            let up = body_chars(before.as_slice());
            if up.len() == 0 {
                let mut root = String::new();
                root.push('/');
                assert(root@ == seq!['/']);
                Some(root)
            } else {
                Some(text::from_chars(up.as_slice()))
            }
        },
    }
}

/// Whether a path starts at the root: see [`is_absolute`].
pub fn path_is_absolute(path: &str) -> (yes: bool)
    ensures
        yes == is_absolute(path@),
{
    let chars = text::to_chars(path);
    chars.len() > 0 && chars[0] == '/'
}

/// `path` as seen from `base`: see [`join`].
pub fn path_join(base: &str, path: &str) -> (result: String)
    ensures
        result@ == join(base@, path@),
{
    if path_is_absolute(path) {
        return path.to_owned();
    }
    let chars = text::to_chars(base);
    let mut result = text::from_chars(chars.as_slice());
    if chars.len() > 0 && chars[chars.len() - 1] != '/' {
        result.push('/');
    }
    result.append(path);
    result
}

/// The components of a path: see [`components`].
pub fn path_components(path: &str) -> (parts: Vec<Vec<char>>)
    ensures
        text::char_views(parts@) == components(path@),
{
    let chars = text::to_chars(path);
    let all = text::split_chars(chars.as_slice(), '/');
    let ghost views = text::char_views(all@);
    let mut parts: Vec<Vec<char>> = Vec::new();
    let ghost mut head: Seq<Seq<char>> = Seq::empty();
    if path_is_absolute(path) {
        let mut root: Vec<char> = Vec::new();
        root.push('/');
        assert(root@ == seq!['/']);
        parts.push(root);
        proof {
            head = seq![seq!['/']];
            assert(text::char_views(parts@) == head);
        }
    }
    let mut i: usize = 0;
    assert(views.take(0) == Seq::<Seq<char>>::empty());
    assert(head + counting_parts(views.take(0)) == head);
    while i < all.len()
        invariant
            i <= all@.len(),
            views == text::char_views(all@),
            text::char_views(parts@) == head + counting_parts(views.take(i as int)),
        decreases all.len() - i,
    {
        let part = &all[i];
        let dot = part.len() == 1 && part[0] == '.';
        let ghost before = parts@;
        proof {
            assert(views.take(i as int + 1).drop_last() == views.take(i as int));
            assert(views.take(i as int + 1).last() == part@);
            assert(dot == (part@ =~= seq!['.']));
        }
        if part.len() != 0 && !(dot && i > 0) {
            let copy = text::slice_chars(part.as_slice(), 0, part.len());
            assert(copy@ == part@);
            parts.push(copy);
            proof {
                assert(text::char_views(parts@) == text::char_views(before).push(part@));
                assert(text::char_views(parts@) == head + counting_parts(views.take(i as int + 1)));
            }
        }
        i += 1;
    }
    assert(views.take(views.len() as int) == views);
    proof {
        if !is_absolute(path@) {
            assert(head + counting_parts(views) == counting_parts(views));
        }
    }
    parts
}

/// Whether `path` lies at or below `base`: see [`starts_with`].
pub fn path_starts_with(path: &str, base: &str) -> (yes: bool)
    ensures
        yes == starts_with(path@, base@),
{
    let mine = path_components(path);
    let theirs = path_components(base);
    let ghost a = text::char_views(mine@);
    let ghost b = text::char_views(theirs@);
    if theirs.len() > mine.len() {
        return false;
    }
    let mut i: usize = 0;
    while i < theirs.len()
        invariant
            i <= theirs@.len() <= mine@.len(),
            a == text::char_views(mine@),
            b == text::char_views(theirs@),
            a == components(path@),
            b == components(base@),
            forall|j: int| 0 <= j < i ==> a[j] == b[j],
        decreases theirs.len() - i,
    {
        if !text::same_chars(mine[i].as_slice(), theirs[i].as_slice()) {
            proof {
                assert(a[i as int] != b[i as int]);
                if b.is_prefix_of(a) {
                    assert(b[i as int] == a.subrange(0, b.len() as int)[i as int]);
                }
            }
            return false;
        }
        assert(a[i as int] == b[i as int]);
        i += 1;
    }
    assert(b == a.subrange(0, b.len() as int));
    true
}

/// What follows the first parts of a path: see [`below_parts`].
fn chars_below_parts(chars: &[char], parts: usize) -> (rest: Vec<char>)
    ensures
        rest@ == below_parts(chars@, parts as int, true),
{
    let mut start: usize = 0;
    let mut left: usize = parts;
    let mut whole = true;
    assert(chars@.skip(0) == chars@);
    loop
        invariant
            start <= chars@.len(),
            below_parts(chars@.skip(start as int), left as int, whole) == below_parts(
                chars@,
                parts as int,
                true,
            ),
        decreases chars.len() - start,
    {
        let tail = text::slice_chars(chars, start, chars.len());
        assert(tail@ == chars@.skip(start as int));
        let k = text::find_char(tail.as_slice(), '/');
        let dot = k == 1 && tail[0] == '.';
        proof {
            let part = tail@.take(k as int);
            if dot {
                assert(part =~= seq!['.']);
            } else if part == seq!['.'] {
                assert(part.len() == 1);
                assert(tail@[0] == part[0]);
            }
        }
        let counts = k > 0 && (whole || !dot);
        if counts && left == 0 {
            return tail;
        }
        if k >= tail.len() {
            return Vec::new();
        }
        proof {
            assert(tail@.skip(k + 1) == chars@.skip(start + k + 1));
        }
        if counts {
            left -= 1;
        }
        start = start + k + 1;
        whole = false;
    }
}

/// A path as seen from `base`, where it lies at or below it: see [`below`].
pub fn path_below(path: &str, base: &str) -> (rest: Option<String>)
    ensures
        match (rest, below(path@, base@)) {
            (Some(r), Some(q)) => r@ == q,
            (None, None) => true,
            _ => false,
        },
{
    if !path_starts_with(path, base) {
        return None;
    }
    let chars = text::to_chars(path);
    if path_is_absolute(path) && !path_is_absolute(base) {
        let whole = body_chars(chars.as_slice());
        if whole.len() == 0 {
            let mut root: Vec<char> = Vec::new();
            root.push('/');
            assert(root@ == seq!['/']);
            return Some(text::from_chars(root.as_slice()));
        }
        return Some(text::from_chars(whole.as_slice()));
    }
    let components = path_components(base);
    let ghost views = text::char_views(components@);
    let mut parts: usize = components.len();
    if path_is_absolute(base) {
        assert(views.len() > 0);
        parts -= 1;
    }
    let rest = chars_below_parts(chars.as_slice(), parts);
    let short = body_chars(rest.as_slice());
    Some(text::from_chars(short.as_slice()))
}

/// What `Path`'s `Debug` writes for a path.
pub uninterp spec fn path_debug_text(p: Seq<char>) -> Seq<char>;

/// Calls `Path`'s `Debug`: the path in double quotes, escaped where it has to be. Only this is said
/// of it: the same path always gives the same text.
#[verifier::external_body]
pub(crate) fn path_debug(path: &str) -> (s: String)
    ensures
        s@ == path_debug_text(path@),
{
    format!("{:?}", std::path::Path::new(path))
}

/// A name behind a directory: it is the last name of the path, and without it the path is the
/// directory again, but for slashes and `.` parts at its end.
pub proof fn law_names_lie_in_their_directory(directory: Seq<char>, name: Seq<char>)
    requires
        is_name(name),
        forall|i: int| 0 <= i < name.len() ==> #[trigger] name[i] != '/',
    ensures
        file_name(join(directory, name)) == Some(name),
        directory.len() == 0 ==> parent(join(directory, name)) == Some(Seq::<char>::empty()),
        directory.len() > 0 && body(directory).len() == 0 ==> parent(join(directory, name)) == Some(
            seq!['/'],
        ),
        body(directory).len() > 0 ==> parent(join(directory, name)) == Some(body(directory)),
{
    let front = if directory.len() == 0 || directory.last() == '/' {
        directory
    } else {
        directory.push('/')
    };
    lemma_name_in_directory(front, name);
    let whole = front + name;
    assert(join(directory, name) == whole);
    if directory.len() == 0 {
        assert(whole == name);
        text::lemma_rfind_is(name, '/', -1);
    } else {
        let k = front.len() - 1;
        assert(whole[k] == '/');
        assert forall|j: int| k < j < whole.len() implies whole[j] != '/' by {
            assert(whole[j] == name[j - front.len()]);
        }
        text::lemma_rfind_is(whole, '/', k);
        if directory.last() == '/' {
            assert(whole.take(k) == directory.drop_last());
        } else {
            assert(whole.take(k) == directory);
        }
    }
}

/// What stands behind the last dot of a name is its extension, and changing the extension changes
/// nothing else.
pub proof fn law_extensions_follow_the_last_dot(
    directory: Seq<char>,
    stem: Seq<char>,
    ext: Seq<char>,
    other: Seq<char>,
)
    requires
        directory.len() == 0 || directory.last() == '/',
        stem.len() > 0,
        ext.len() > 0,
        forall|i: int| 0 <= i < stem.len() ==> #[trigger] stem[i] != '/',
        forall|i: int| 0 <= i < ext.len() ==> #[trigger] ext[i] != '/' && ext[i] != '.',
    ensures
        extension(directory + (stem.push('.') + ext)) == Some(ext),
        with_extension(directory + (stem.push('.') + ext), other) == (if other.len() == 0 {
            directory + stem
        } else {
            directory + (stem.push('.') + other)
        }),
{
    let name = stem.push('.') + ext;
    assert forall|i: int| 0 <= i < name.len() implies #[trigger] name[i] != '/' by {
        if i < stem.len() {
            assert(name[i] == stem[i]);
        } else if i > stem.len() {
            assert(name[i] == ext[i - stem.len() - 1]);
        }
    }
    assert(name.last() == ext.last());
    lemma_name_in_directory(directory, name);
    let k = stem.len() as int;
    assert(name[k] == '.');
    assert forall|j: int| k < j < name.len() implies name[j] != '.' by {
        assert(name[j] == ext[j - k - 1]);
    }
    text::lemma_rfind_is(name, '.', k);
    assert(name.skip(k + 1) == ext);
    let whole = directory + name;
    assert(whole.take(whole.len() - name.len() + k) == directory + stem);
    assert((directory + stem).push('.') + other == directory + (stem.push('.') + other));
}

/// A name without a dot behind its first character has no extension, and is given one behind it.
pub proof fn law_names_without_extension(directory: Seq<char>, name: Seq<char>, ext: Seq<char>)
    requires
        directory.len() == 0 || directory.last() == '/',
        is_name(name),
        forall|i: int| 0 <= i < name.len() ==> #[trigger] name[i] != '/',
        forall|i: int| 0 < i < name.len() ==> #[trigger] name[i] != '.',
        ext.len() > 0,
    ensures
        extension(directory + name) is None,
        with_extension(directory + name, ext) == directory + (name.push('.') + ext),
{
    lemma_name_in_directory(directory, name);
    text::lemma_rfind(name, '.');
    let whole = directory + name;
    assert(whole.take(whole.len() as int) == whole);
    assert(whole.push('.') + ext == directory + (name.push('.') + ext));
}

/// A path that starts at the root stands for itself, wherever it is seen from.
pub proof fn law_absolute_paths_stand_for_themselves(base: Seq<char>, p: Seq<char>)
    ensures
        p.len() > 0 && p[0] == '/' ==> join(base, p) == p,
        !(p.len() > 0 && p[0] == '/') ==> base.is_prefix_of(join(base, p)) && p.is_suffix_of(
            join(base, p),
        ) && join(base, p).len() <= base.len() + p.len() + 1,
{
}

/// A name of one entry of a directory.
pub open spec fn is_entry(name: Seq<char>) -> bool {
    &&& name.len() > 0
    &&& name != seq!['.']
    &&& forall|i: int| 0 <= i < name.len() ==> #[trigger] name[i] != '/'
}

/// Whether all are names of entries.
pub open spec fn are_entries(names: Seq<Seq<char>>) -> bool {
    forall|i: int| 0 <= i < names.len() ==> is_entry(#[trigger] names[i])
}

proof fn lemma_entries_count(names: Seq<Seq<char>>)
    requires
        are_entries(names),
    ensures
        counting_parts(names) == names,
    decreases names.len(),
{
    if names.len() > 0 {
        let less = names.drop_last();
        assert forall|i: int| 0 <= i < less.len() implies is_entry(#[trigger] less[i]) by {
            assert(less[i] == names[i]);
        }
        lemma_entries_count(less);
        assert(is_entry(names[names.len() - 1]));
        assert(less.push(names.last()) == names);
    }
}

proof fn lemma_entries_split(names: Seq<Seq<char>>)
    requires
        are_entries(names),
        names.len() > 0,
    ensures
        text::split(text::join(names, '/'), '/') == names,
        text::join(names, '/').len() > 0,
        text::join(names, '/')[0] != '/',
        text::join(names, '/').last() != '/',
        body(text::join(names, '/')) == text::join(names, '/'),
    decreases names.len(),
{
    assert forall|i: int, j: int|
        0 <= i < names.len() && 0 <= j < names[i].len() implies #[trigger] names[i][j] != '/' by {
        assert(is_entry(names[i]));
    }
    text::law_joined_parts_split_again(names, '/');
    let whole = text::join(names, '/');
    assert(is_entry(names[0]));
    if names.len() > 1 {
        let rest = names.skip(1);
        assert forall|i: int| 0 <= i < rest.len() implies is_entry(#[trigger] rest[i]) by {
            assert(rest[i] == names[i + 1]);
        }
        lemma_entries_split(rest);
        let tail = text::join(rest, '/');
        assert(whole == names[0].push('/') + tail);
        assert(whole.last() == tail.last());
        if whole.last() == '.' && whole[whole.len() - 2] == '/' {
            if tail.len() >= 2 {
                assert(whole[whole.len() - 2] == tail[tail.len() - 2]);
                lemma_body_is_prefix(tail.drop_last());
                assert(body(tail) == body(tail.drop_last()));
                assert(false);
            } else {
                assert(tail == seq!['.']);
                assert(is_entry(rest[0]));
                if rest.len() > 1 {
                    assert(tail.len() >= rest[0].len() + 1);
                } else {
                    assert(rest[0] == tail);
                }
                assert(false);
            }
        }
    } else {
        if whole.last() == '.' && whole.len() >= 2 {
            assert(whole[whole.len() - 2] != '/');
        }
    }
}

/// A path of names has these names as its components, also where it starts at the root.
pub proof fn law_names_are_components(names: Seq<Seq<char>>)
    requires
        are_entries(names),
        names.len() > 0,
    ensures
        components(text::join(names, '/')) == names,
        components(seq!['/'] + text::join(names, '/')) == seq![seq!['/']] + names,
{
    lemma_entries_split(names);
    lemma_entries_count(names);
    let whole = text::join(names, '/');
    let rooted = seq!['/'] + whole;
    text::lemma_find_is(rooted, '/', 0);
    assert(rooted.take(0) == Seq::<char>::empty());
    assert(rooted.skip(1) == whole);
    let parts = seq![Seq::<char>::empty()] + names;
    assert(text::split(rooted, '/') == parts);
    lemma_entries_count_behind_root(names);
}

proof fn lemma_entries_count_behind_root(names: Seq<Seq<char>>)
    requires
        are_entries(names),
    ensures
        counting_parts(seq![Seq::<char>::empty()] + names) == names,
    decreases names.len(),
{
    let parts = seq![Seq::<char>::empty()] + names;
    if names.len() == 0 {
        assert(parts.drop_last() == Seq::<Seq<char>>::empty());
        assert(counting_parts(parts.drop_last()) == Seq::<Seq<char>>::empty());
        assert(parts.last() == Seq::<char>::empty());
    } else {
        let less = names.drop_last();
        assert forall|i: int| 0 <= i < less.len() implies is_entry(#[trigger] less[i]) by {
            assert(less[i] == names[i]);
        }
        lemma_entries_count_behind_root(less);
        assert(parts.drop_last() == seq![Seq::<char>::empty()] + less);
        assert(parts.last() == names.last());
        assert(is_entry(names[names.len() - 1]));
        assert(less.push(names.last()) == names);
    }
}

proof fn lemma_below_names(a: Seq<Seq<char>>, b: Seq<Seq<char>>, whole: bool)
    requires
        are_entries(a),
        are_entries(b),
        b.len() > 0,
    ensures
        below_parts(text::join(a + b, '/'), a.len() as int, whole) == text::join(b, '/'),
    decreases a.len(),
{
    let names = a + b;
    let p = text::join(names, '/');
    let first = names[0];
    let k = first.len() as int;
    if a.len() == 0 {
        assert(names == b);
        assert(is_entry(b[0]));
    } else {
        assert(first == a[0]);
        assert(is_entry(a[0]));
    }
    assert(is_entry(first));
    assert forall|j: int| 0 <= j < k implies p[j] != '/' by {
        assert(p[j] == first[j]);
    }
    text::lemma_find_is(p, '/', k);
    assert(p.take(k) == first);
    if a.len() > 0 {
        let rest = a.skip(1);
        assert(names.skip(1) == rest + b);
        assert(p == first.push('/') + text::join(rest + b, '/'));
        assert(p.skip(k + 1) == text::join(rest + b, '/'));
        assert forall|i: int| 0 <= i < rest.len() implies is_entry(#[trigger] rest[i]) by {
            assert(rest[i] == a[i + 1]);
        }
        lemma_below_names(rest, b, false);
    }
}

/// What lies in a directory lies below it, and is found there again by the rest of its path; and a
/// path lies below no directory but those that it goes through.
pub proof fn law_paths_are_seen_from_their_directories(a: Seq<Seq<char>>, b: Seq<Seq<char>>)
    requires
        are_entries(a),
        are_entries(b),
        a.len() > 0,
        b.len() > 0,
    ensures
        starts_with(text::join(a + b, '/'), text::join(a, '/')),
        below(text::join(a + b, '/'), text::join(a, '/')) == Some(text::join(b, '/')),
        starts_with(text::join(b, '/'), text::join(a, '/')) <==> a.is_prefix_of(b),
        !a.is_prefix_of(b) ==> below(text::join(b, '/'), text::join(a, '/')) is None,
{
    let names = a + b;
    assert forall|i: int| 0 <= i < names.len() implies is_entry(#[trigger] names[i]) by {
        if i < a.len() {
            assert(names[i] == a[i]);
        } else {
            assert(names[i] == b[i - a.len()]);
        }
    }
    law_names_are_components(a);
    law_names_are_components(b);
    law_names_are_components(names);
    lemma_entries_split(a);
    lemma_entries_split(b);
    lemma_entries_split(names);
    lemma_below_names(a, b, true);
    assert(a.is_prefix_of(names));
}

/// Slashes and `.` parts at the end of a path mean nothing, and all else does.
pub proof fn law_ends_that_mean_nothing(p: Seq<char>)
    ensures
        body(p.push('/')) == body(p),
        body(p.push('/').push('.')) == body(p),
        p.len() > 0 && p.last() != '/' && p.last() != '.' ==> body(p) == p,
        file_name(p.push('/')) == file_name(p),
        parent(p.push('/')) == parent(p),
{
    let slashed = p.push('/');
    let dotted = slashed.push('.');
    assert(slashed.drop_last() == p);
    assert(dotted.drop_last() == slashed);
    assert(dotted[dotted.len() - 2] == '/');
}

/// Neither `.` nor `..` is the name of anything.
pub proof fn law_dots_are_no_names(directory: Seq<char>)
    requires
        directory.len() == 0 || directory.last() == '/',
    ensures
        file_name(directory + seq!['.', '.']) is None,
        directory.len() == 0 ==> file_name(directory + seq!['.']) is None,
        file_name(Seq::<char>::empty()) is None,
        file_name(seq!['/']) is None,
{
    let up = directory + seq!['.', '.'];
    assert(up[up.len() - 2] == '.');
    assert(body(up) == up);
    let k = directory.len() - 1;
    assert forall|j: int| k < j < up.len() implies up[j] != '/' by {}
    if directory.len() > 0 {
        assert(up[k] == directory.last());
    }
    text::lemma_rfind_is(up, '/', k);
    assert(up.skip(k + 1) == seq!['.', '.']);
    let here = seq!['.'];
    assert(Seq::<char>::empty() + here == here);
    if directory.len() == 0 {
        assert(directory + here == here);
        assert(body(here) == here);
        text::lemma_rfind_is(here, '/', -1);
        assert(here.skip(0) == here);
    }
    let empty = Seq::<char>::empty();
    assert(body(empty) == empty);
    text::lemma_rfind_is(empty, '/', -1);
    assert(empty.skip(0) == empty);
    assert(seq!['/'].drop_last() == empty);
    assert(body(seq!['/']) == empty);
}

} // verus!
