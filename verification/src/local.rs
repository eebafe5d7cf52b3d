//! Local paths, of the kind that the machine has. On Unix a slash parts the names of a path. On
//! Windows both kinds of slash do, the backslash joins them, and a path may begin with a prefix: a
//! drive such as `C:`, a share such as `\\host\share`, or a device such as `\\.\COM1`. Behind the
//! verbatim mark `\\?\` a Windows path is taken word by word: only the backslash parts its names,
//! and `.` is a name as any other.

use vstd::prelude::*;

use crate::ftp::lines::{digit_letters, modes_are_shown_digit_by_digit};
use crate::ftp::order::sort_entries;
use crate::ftp::parser::{mode_string, perm_text};
use crate::ftp::types::{EntryView, FileEntry};
use crate::text::{chars_of, push_all, string_of};

verus! {

/// The kind of paths that a machine has.
#[derive(Clone, Copy, Debug, PartialEq, Eq, Structural)]
pub enum PathKind {
    Unix,
    Windows,
}

impl DeepView for PathKind {
    type V = PathKind;

    open spec fn deep_view(&self) -> PathKind {
        *self
    }
}

/// Which slashes part the names of a path.
#[derive(Clone, Copy, Debug, PartialEq, Eq, Structural)]
pub enum Slashes {
    Forward,
    Both,
    Back,
}

/// Whether `c` is one of the slashes.
pub open spec fn is_slash(slashes: Slashes, c: char) -> bool {
    match slashes {
        Slashes::Forward => c == '/',
        Slashes::Both => c == '/' || c == '\\',
        Slashes::Back => c == '\\',
    }
}

/// The slashes that part names on a machine, outside of verbatim paths.
pub open spec fn slashes_of(kind: PathKind) -> Slashes {
    match kind {
        PathKind::Unix => Slashes::Forward,
        PathKind::Windows => Slashes::Both,
    }
}

/// Whether `c` parts the names of a path of the given kind that is not verbatim.
pub open spec fn is_separator(kind: PathKind, c: char) -> bool {
    is_slash(slashes_of(kind), c)
}

/// The separator that joins names.
pub open spec fn separator_of(kind: PathKind) -> char {
    match kind {
        PathKind::Unix => '/',
        PathKind::Windows => '\\',
    }
}

/// Whether `p` is a Windows path that begins with the verbatim mark `\\?\`.
pub open spec fn is_verbatim(kind: PathKind, p: Seq<char>) -> bool {
    &&& kind == PathKind::Windows
    &&& p.len() >= 4
    &&& p[0] == '\\'
    &&& p[1] == '\\'
    &&& p[2] == '?'
    &&& p[3] == '\\'
}

/// The slashes that part the names of `p`.
pub open spec fn slashes_in(kind: PathKind, p: Seq<char>) -> Slashes {
    if is_verbatim(kind, p) {
        Slashes::Back
    } else {
        slashes_of(kind)
    }
}

/// Whether `c` is an ASCII letter.
pub open spec fn is_letter(c: char) -> bool {
    'a' <= c <= 'z' || 'A' <= c <= 'Z'
}

/// Whether a drive such as `C:` stands at `at` in `p`.
pub open spec fn has_drive_at(p: Seq<char>, at: int) -> bool {
    p.len() >= at + 2 && is_letter(p[at]) && p[at + 1] == ':'
}

/// Whether `p` begins with a drive.
pub open spec fn has_drive(p: Seq<char>) -> bool {
    has_drive_at(p, 0)
}

/// Where the name that begins at `from` ends.
pub open spec fn name_end(slashes: Slashes, p: Seq<char>, from: int) -> int
    decreases p.len() - from,
{
    if from >= p.len() || is_slash(slashes, p[from]) {
        from
    } else {
        name_end(slashes, p, from + 1)
    }
}

/// Where the share ends whose host begins at `from`. A share that is missing or has no name does
/// not count, and so the host alone is left.
pub open spec fn share_end(slashes: Slashes, p: Seq<char>, from: int) -> int {
    let host = name_end(slashes, p, from);
    let share = name_end(slashes, p, host + 1);
    if host + 1 < share {
        share
    } else {
        host
    }
}

/// The length of the prefix of a verbatim path: the mark, and behind it `UNC\` with a host and its
/// share, or a drive and nothing else up to the next slash, or one name.
pub open spec fn verbatim_len(p: Seq<char>) -> int {
    if p.len() >= 8 && p[4] == 'U' && p[5] == 'N' && p[6] == 'C' && is_slash(Slashes::Both, p[7]) {
        share_end(Slashes::Back, p, 8)
    } else if has_drive_at(p, 4) && (p.len() == 6 || is_slash(Slashes::Both, p[6])) {
        6
    } else {
        name_end(Slashes::Back, p, 4)
    }
}

/// The length of the prefix of a path that begins with two slashes and is not verbatim: a device,
/// or a host with a share, both of them named.
pub open spec fn share_len(p: Seq<char>) -> int {
    let host = name_end(Slashes::Both, p, 2);
    let share = share_end(Slashes::Both, p, 2);
    if p.len() >= 4 && p[2] == '.' && is_slash(Slashes::Both, p[3]) {
        name_end(Slashes::Both, p, 4)
    } else if 2 < host && host < share {
        share
    } else {
        0
    }
}

/// The length of the prefix of `p`: its drive, share, device or verbatim prefix.
pub open spec fn prefix_len(kind: PathKind, p: Seq<char>) -> int {
    if kind == PathKind::Unix {
        0
    } else if has_drive(p) {
        2
    } else if is_verbatim(kind, p) {
        verbatim_len(p)
    } else if p.len() >= 2 && is_slash(Slashes::Both, p[0]) && is_slash(Slashes::Both, p[1]) {
        share_len(p)
    } else {
        0
    }
}

/// Whether a slash stands behind the prefix of `p`: its names are counted from the root.
pub open spec fn has_root(kind: PathKind, p: Seq<char>) -> bool {
    let prefix = prefix_len(kind, p);
    p.len() > prefix && is_separator(kind, p[prefix])
}

/// Whether `p` is a drive and nothing else.
pub open spec fn is_bare_drive(kind: PathKind, p: Seq<char>) -> bool {
    kind == PathKind::Windows && has_drive(p) && p.len() == 2
}

/// The names of `p` from `from` on: what stands between the slashes.
pub open spec fn names_from(slashes: Slashes, p: Seq<char>, from: int) -> Seq<Seq<char>>
    decreases p.len() - from,
{
    if from >= p.len() {
        Seq::empty()
    } else if is_slash(slashes, p[from]) {
        names_from(slashes, p, from + 1)
    } else {
        let end = name_end(slashes, p, from);
        proof {
            lemma_name_end(slashes, p, from + 1);
        }
        seq![p.subrange(from, end)] + names_from(slashes, p, end)
    }
}

/// The names that lead to a place, once the names `more` are followed from there. A `.` leads
/// nowhere, and `..` takes back the last name unless that is a dot or two.
pub open spec fn followed(names: Seq<Seq<char>>, more: Seq<Seq<char>>) -> Seq<Seq<char>>
    decreases more.len(),
{
    if more.len() == 0 {
        names
    } else {
        let there = followed(names, more.drop_last());
        let name = more.last();
        if name == seq!['.'] {
            there
        } else if name == seq!['.', '.'] {
            if there.len() > 0 && there.last() != seq!['.'] && there.last() != seq!['.', '.'] {
                there.drop_last()
            } else {
                there
            }
        } else {
            there.push(name)
        }
    }
}

/// The names, a backslash before each.
pub open spec fn backslashed(names: Seq<Seq<char>>) -> Seq<char>
    decreases names.len(),
{
    if names.len() == 0 {
        Seq::empty()
    } else {
        backslashed(names.drop_last()) + seq!['\\'] + names.last()
    }
}

/// A verbatim path: its prefix, the names behind it, and its root where there are none.
pub open spec fn verbatim_path(prefix: Seq<char>, rooted: bool, names: Seq<Seq<char>>) -> Seq<
    char,
> {
    if rooted && names.len() == 0 {
        prefix + seq!['\\']
    } else {
        prefix + backslashed(names)
    }
}

/// The path of `name` seen from the verbatim directory `base`: its dots are followed, since the
/// path that comes of it is taken word by word.
pub open spec fn verbatim_joined(base: Seq<char>, name: Seq<char>) -> Seq<char> {
    let kind = PathKind::Windows;
    let to_root = is_separator(kind, name[0]);
    let from = if to_root {
        Seq::empty()
    } else {
        names_from(Slashes::Back, base, anchor_len(kind, base))
    };
    verbatim_path(
        base.take(prefix_len(kind, base)),
        to_root || has_root(kind, base),
        followed(from, names_from(Slashes::Both, name, 0)),
    )
}

/// The path of `name` seen from the directory `base`. A name with a prefix stands for itself; one
/// with a root keeps the prefix of `base`; any other name is appended, with a separator between
/// the two unless `base` is empty, is a bare drive, or ends with one. Where `base` is verbatim,
/// the dots of the name are followed.
pub open spec fn joined(kind: PathKind, base: Seq<char>, name: Seq<char>) -> Seq<char> {
    if prefix_len(kind, name) > 0 {
        name
    } else if is_verbatim(kind, base) && name.len() > 0 {
        verbatim_joined(base, name)
    } else if name.len() > 0 && is_separator(kind, name[0]) {
        base.take(prefix_len(kind, base)) + name
    } else if base.len() == 0 || is_bare_drive(kind, base) || is_separator(kind, base.last()) {
        base + name
    } else {
        base + seq![separator_of(kind)] + name
    }
}

/// Where a name ends: at the next slash, or where the path does.
pub proof fn lemma_name_end(slashes: Slashes, p: Seq<char>, from: int)
    ensures
        from <= name_end(slashes, p, from),
        from <= p.len() ==> name_end(slashes, p, from) <= p.len(),
        from >= p.len() ==> name_end(slashes, p, from) == from,
        forall|i: int|
            from <= i < name_end(slashes, p, from) ==> !is_slash(slashes, #[trigger] p[i]),
        name_end(slashes, p, from) < p.len() ==> is_slash(slashes, p[name_end(slashes, p, from)]),
    decreases p.len() - from,
{
    if from < p.len() && !is_slash(slashes, p[from]) {
        lemma_name_end(slashes, p, from + 1);
    }
}

proof fn lemma_prefix(kind: PathKind, p: Seq<char>)
    ensures
        0 <= prefix_len(kind, p) <= p.len(),
        is_verbatim(kind, p) ==> prefix_len(kind, p) >= 4,
{
    if p.len() >= 2 {
        lemma_share_end(Slashes::Both, p, 2);
    }
    if p.len() >= 4 {
        lemma_name_end(Slashes::Both, p, 4);
        lemma_name_end(Slashes::Back, p, 4);
    }
    if p.len() >= 8 {
        lemma_share_end(Slashes::Back, p, 8);
    }
}

proof fn lemma_share_end(slashes: Slashes, p: Seq<char>, from: int)
    requires
        0 <= from <= p.len(),
    ensures
        from <= name_end(slashes, p, from) <= share_end(slashes, p, from) <= p.len(),
{
    lemma_name_end(slashes, p, from);
    lemma_name_end(slashes, p, name_end(slashes, p, from) + 1);
}

/// Whether `c` is one of the slashes.
fn slash(slashes: Slashes, c: char) -> (r: bool)
    ensures
        r == is_slash(slashes, c),
{
    match slashes {
        Slashes::Forward => c == '/',
        Slashes::Both => c == '/' || c == '\\',
        Slashes::Back => c == '\\',
    }
}

/// Whether `c` parts the names of a path of the given kind that is not verbatim.
fn separator(kind: PathKind, c: char) -> (r: bool)
    ensures
        r == is_separator(kind, c),
{
    match kind {
        PathKind::Unix => slash(Slashes::Forward, c),
        PathKind::Windows => slash(Slashes::Both, c),
    }
}

/// Whether `p` is a Windows path that begins with the verbatim mark.
fn verbatim(kind: PathKind, p: &[char]) -> (r: bool)
    ensures
        r == is_verbatim(kind, p@),
{
    kind == PathKind::Windows && p.len() >= 4 && p[0] == '\\' && p[1] == '\\' && p[2] == '?' && p[3]
        == '\\'
}

/// The slashes that part the names of `p`.
fn slashes_at(kind: PathKind, p: &[char]) -> (r: Slashes)
    ensures
        r == slashes_in(kind, p@),
{
    if verbatim(kind, p) {
        return Slashes::Back;
    }
    match kind {
        PathKind::Unix => Slashes::Forward,
        PathKind::Windows => Slashes::Both,
    }
}

/// Whether a drive stands at `at` in `p`.
fn drive_at(p: &[char], at: usize) -> (r: bool)
    requires
        at <= 4,
    ensures
        r == has_drive_at(p@, at as int),
{
    p.len() >= at + 2 && (('a' <= p[at] && p[at] <= 'z') || ('A' <= p[at] && p[at] <= 'Z')) && p[at
        + 1] == ':'
}

/// Where the name that begins at `from` ends.
fn end_of_name(slashes: Slashes, p: &[char], from: usize) -> (r: usize)
    requires
        from <= p@.len(),
    ensures
        r == name_end(slashes, p@, from as int),
        from <= r <= p@.len(),
{
    let mut i: usize = from;
    while i < p.len() && !slash(slashes, p[i])
        invariant
            from <= i <= p@.len(),
            name_end(slashes, p@, from as int) == name_end(slashes, p@, i as int),
        decreases p@.len() - i,
    {
        i += 1;
    }
    i
}

/// Where the share ends whose host begins at `from`, or the host where there is none.
fn end_of_share(slashes: Slashes, p: &[char], from: usize) -> (r: usize)
    requires
        from <= p@.len(),
    ensures
        r == share_end(slashes, p@, from as int),
        from <= r <= p@.len(),
{
    let host = end_of_name(slashes, p, from);
    if host == p.len() {
        proof {
            lemma_name_end(slashes, p@, host + 1);
        }
        return host;
    }
    let share = end_of_name(slashes, p, host + 1);
    if host + 1 < share {
        share
    } else {
        host
    }
}

/// The length of the prefix of `p`.
fn prefix(kind: PathKind, p: &[char]) -> (r: usize)
    ensures
        r == prefix_len(kind, p@),
        r <= p@.len(),
{
    if kind == PathKind::Unix {
        return 0;
    }
    if drive_at(p, 0) {
        return 2;
    }
    let n: usize = p.len();
    if verbatim(kind, p) {
        if n >= 8 && p[4] == 'U' && p[5] == 'N' && p[6] == 'C' && slash(Slashes::Both, p[7]) {
            end_of_share(Slashes::Back, p, 8)
        } else if drive_at(p, 4) && (n == 6 || slash(Slashes::Both, p[6])) {
            6
        } else {
            end_of_name(Slashes::Back, p, 4)
        }
    } else if n >= 2 && slash(Slashes::Both, p[0]) && slash(Slashes::Both, p[1]) {
        if n >= 4 && p[2] == '.' && slash(Slashes::Both, p[3]) {
            return end_of_name(Slashes::Both, p, 4);
        }
        let host = end_of_name(Slashes::Both, p, 2);
        let share = end_of_share(Slashes::Both, p, 2);
        if 2 < host && host < share {
            share
        } else {
            0
        }
    } else {
        0
    }
}

/// The names of `p` from `from` on.
fn list_names<'a>(slashes: Slashes, p: &'a [char], from: usize) -> (r: Vec<&'a [char]>)
    requires
        from <= p@.len(),
    ensures
        views(r@) == names_from(slashes, p@, from as int),
{
    let mut out: Vec<&'a [char]> = Vec::new();
    let mut i: usize = from;
    let ghost all = names_from(slashes, p@, from as int);
    assert(views(out@) + names_from(slashes, p@, i as int) =~= all);
    while i < p.len()
        invariant
            i <= p@.len(),
            views(out@) + names_from(slashes, p@, i as int) == all,
        decreases p@.len() - i,
    {
        if slash(slashes, p[i]) {
            i += 1;
        } else {
            let end = end_of_name(slashes, p, i);
            proof {
                lemma_name_end(slashes, p@, i + 1);
            }
            let name = vstd::slice::slice_subrange(p, i, end);
            let ghost before = views(out@);
            let ghost rest = names_from(slashes, p@, end as int);
            out.push(name);
            assert(views(out@) =~= before.push(name@));
            assert(before + (seq![name@] + rest) =~= before.push(name@) + rest);
            i = end;
        }
    }
    assert(views(out@) + names_from(slashes, p@, i as int) =~= views(out@));
    out
}

/// What the names say.
pub open spec fn views(names: Seq<&[char]>) -> Seq<Seq<char>> {
    names.map_values(|name: &[char]| name@)
}

/// Whether `s` is one dot.
fn one_dot(s: &[char]) -> (r: bool)
    ensures
        r == (s@ == seq!['.']),
{
    let r = s.len() == 1 && s[0] == '.';
    assert(r ==> s@ =~= seq!['.']);
    r
}

/// Whether `s` is two dots.
fn two_dots(s: &[char]) -> (r: bool)
    ensures
        r == (s@ == seq!['.', '.']),
{
    let r = s.len() == 2 && s[0] == '.' && s[1] == '.';
    assert(r ==> s@ =~= seq!['.', '.']);
    r
}

/// Follows the names `more` from where `names` lead.
fn follow<'a>(names: &mut Vec<&'a [char]>, more: &Vec<&'a [char]>)
    ensures
        views(final(names)@) == followed(views(old(names)@), views(more@)),
{
    let ghost start = views(names@);
    let ghost all = views(more@);
    assert(all.take(0) =~= Seq::empty());
    for i in 0..more.len()
        invariant
            all == views(more@),
            views(names@) == followed(start, all.take(i as int)),
    {
        let name = more[i];
        let ghost there = views(names@);
        proof {
            assert(all.take(i + 1).drop_last() =~= all.take(i as int));
            assert(all.take(i + 1).last() == name@);
        }
        if one_dot(name) {
        } else if two_dots(name) {
            let n: usize = names.len();
            if n > 0 && !one_dot(names[n - 1]) && !two_dots(names[n - 1]) {
                assert(there.last() == names@[n - 1]@);
                names.pop();
                assert(views(names@) =~= there.drop_last());
            } else if n > 0 {
                assert(there.last() == names@[n - 1]@);
            }
        } else {
            names.push(name);
            assert(views(names@) =~= there.push(name@));
        }
        assert(views(names@) =~= followed(start, all.take(i + 1)));
    }
    assert(all.take(all.len() as int) =~= all);
}

/// The path of `name` seen from the verbatim directory `base`.
fn join_verbatim(base: &[char], name: &[char]) -> (r: String)
    requires
        is_verbatim(PathKind::Windows, base@),
        name@.len() > 0,
    ensures
        r@ == verbatim_joined(base@, name@),
{
    let kind = PathKind::Windows;
    let prefix = prefix(kind, base);
    let base_rooted: bool = base.len() > prefix && separator(kind, base[prefix]);
    let to_root = separator(kind, name[0]);
    let mut names: Vec<&[char]> = if to_root {
        Vec::new()
    } else {
        list_names(Slashes::Back, base, anchor(kind, base))
    };
    assert(to_root ==> views(names@) =~= Seq::<Seq<char>>::empty());
    let more = list_names(Slashes::Both, name, 0);
    follow(&mut names, &more);
    let mut out: Vec<char> = Vec::new();
    let head = vstd::slice::slice_subrange(base, 0, prefix);
    push_all(&mut out, head);
    let ghost start = base@.take(prefix as int);
    let ghost all = views(names@);
    assert(out@ =~= start);
    if names.len() == 0 {
        if to_root || base_rooted {
            out.push('\\');
        }
        assert(all =~= Seq::<Seq<char>>::empty());
        assert(out@ =~= verbatim_joined(base@, name@));
        return string_of(out.as_slice());
    }
    assert(all.take(0) =~= Seq::empty());
    assert(out@ =~= start + backslashed(all.take(0)));
    for i in 0..names.len()
        invariant
            all == views(names@),
            out@ == start + backslashed(all.take(i as int)),
    {
        proof {
            assert(all.take(i + 1).drop_last() =~= all.take(i as int));
            assert(all.take(i + 1).last() == names@[i as int]@);
        }
        out.push('\\');
        push_all(&mut out, names[i]);
        assert(out@ =~= start + backslashed(all.take(i + 1)));
    }
    assert(all.take(all.len() as int) =~= all);
    string_of(out.as_slice())
}

/// The path of `name` seen from the directory `path`.
pub fn join(kind: PathKind, path: &str, name: &str) -> (r: String)
    ensures
        r@ == joined(kind, path@, name@),
{
    let base = chars_of(path);
    let base = base.as_slice();
    let name = chars_of(name);
    let name = name.as_slice();
    if prefix(kind, name) > 0 {
        return string_of(name);
    }
    if verbatim(kind, base) && name.len() > 0 {
        return join_verbatim(base, name);
    }
    let mut out: Vec<char> = Vec::new();
    if name.len() > 0 && separator(kind, name[0]) {
        push_all(&mut out, vstd::slice::slice_subrange(base, 0, prefix(kind, base)));
    } else {
        push_all(&mut out, base);
        let bare = match kind {
            PathKind::Unix => false,
            PathKind::Windows => base.len() == 2 && drive_at(base, 0),
        };
        if base.len() > 0 && !bare && !separator(kind, base[base.len() - 1]) {
            out.push(
                match kind {
                    PathKind::Unix => '/',
                    PathKind::Windows => '\\',
                },
            );
        }
    }
    push_all(&mut out, name);
    assert(out@ =~= joined(kind, path@, name@));
    string_of(out.as_slice())
}

/// Whether `p` has no root and the first of its names is a dot: it begins where one is.
pub open spec fn starts_here(kind: PathKind, p: Seq<char>) -> bool {
    let prefix = prefix_len(kind, p);
    &&& !has_root(kind, p)
    &&& p.len() > prefix
    &&& p[prefix] == '.'
    &&& p.len() == prefix + 1 || is_slash(slashes_in(kind, p), p[prefix + 1])
}

/// The length of the head of `p` that no parent drops: the prefix, and the root or the dot that
/// the names are counted from.
pub open spec fn anchor_len(kind: PathKind, p: Seq<char>) -> int {
    prefix_len(kind, p) + if has_root(kind, p) || starts_here(kind, p) {
        1int
    } else {
        0
    }
}

/// What is left of the first `n` characters of `p` without the separators at their end, and
/// without the names `.` there, which change nothing unless the path is verbatim.
pub open spec fn settled(kind: PathKind, p: Seq<char>, n: int) -> int
    decreases n,
{
    let a = anchor_len(kind, p);
    let slashes = slashes_in(kind, p);
    if n <= a || n <= 0 {
        n
    } else if is_slash(slashes, p[n - 1]) {
        settled(kind, p, n - 1)
    } else if !is_verbatim(kind, p) && p[n - 1] == '.' && (if n - 1 == a {
        has_root(kind, p)
    } else {
        is_slash(slashes, p[n - 2])
    }) {
        settled(kind, p, n - 1)
    } else {
        n
    }
}

/// Where the name that ends at `n` begins.
pub open spec fn name_start(kind: PathKind, p: Seq<char>, n: int) -> int
    decreases n,
{
    if n <= anchor_len(kind, p) || n <= 0 || is_slash(slashes_in(kind, p), p[n - 1]) {
        n
    } else {
        name_start(kind, p, n - 1)
    }
}

/// `p` without its last name. A path without a name in it has no such part, and that of a single
/// name, or of a dot alone, is empty.
pub open spec fn dir_of(kind: PathKind, p: Seq<char>) -> Option<Seq<char>> {
    let n = settled(kind, p, p.len() as int);
    if n > anchor_len(kind, p) {
        Some(p.take(settled(kind, p, name_start(kind, p, n))))
    } else if starts_here(kind, p) && prefix_len(kind, p) == 0 {
        Some(Seq::empty())
    } else {
        None
    }
}

/// The directory that holds `p`. A path without a name in it, and a single name, have none.
pub open spec fn parent_of(kind: PathKind, p: Seq<char>) -> Option<Seq<char>> {
    match dir_of(kind, p) {
        Some(dir) => if dir.len() == 0 {
            None
        } else {
            Some(dir)
        },
        None => None,
    }
}

proof fn lemma_settled(kind: PathKind, p: Seq<char>, n: int)
    requires
        0 <= n <= p.len(),
    ensures
        0 <= settled(kind, p, n) <= n,
        0 <= name_start(kind, p, n) <= n,
    decreases n,
{
    if n > 0 {
        lemma_settled(kind, p, n - 1);
    }
}

/// The length of the head of `p` that no parent drops.
fn anchor(kind: PathKind, p: &[char]) -> (r: usize)
    ensures
        r == anchor_len(kind, p@),
        r <= p@.len(),
{
    let prefix = prefix(kind, p);
    let slashes = slashes_at(kind, p);
    if p.len() > prefix && (separator(kind, p[prefix]) || (p[prefix] == '.' && (p.len() - prefix
        == 1 || slash(slashes, p[prefix + 1])))) {
        prefix + 1
    } else {
        prefix
    }
}

fn settle(kind: PathKind, p: &[char], from: usize) -> (r: usize)
    requires
        from <= p@.len(),
    ensures
        r == settled(kind, p@, from as int),
        r <= from,
{
    let a = anchor(kind, p);
    let prefix = prefix(kind, p);
    let rooted: bool = p.len() > prefix && separator(kind, p[prefix]);
    let slashes = slashes_at(kind, p);
    let dots: bool = !verbatim(kind, p);
    let mut n: usize = from;
    while n > a
        invariant
            a == anchor_len(kind, p@),
            rooted == has_root(kind, p@),
            slashes == slashes_in(kind, p@),
            dots == !is_verbatim(kind, p@),
            n <= from <= p@.len(),
            settled(kind, p@, from as int) == settled(kind, p@, n as int),
        ensures
            n <= from,
            settled(kind, p@, from as int) == n,
        decreases n,
    {
        let last = p[n - 1];
        if slash(slashes, last) {
            n -= 1;
        } else if dots && last == '.' && (if n - 1 == a {
            rooted
        } else {
            slash(slashes, p[n - 2])
        }) {
            n -= 1;
        } else {
            break;
        }
    }
    n
}

/// `path` without its last name.
pub fn dir(kind: PathKind, path: &str) -> (r: Option<String>)
    ensures
        r.deep_view() == dir_of(kind, path@),
{
    let chars = chars_of(path);
    let p = chars.as_slice();
    let a = anchor(kind, p);
    let n = settle(kind, p, p.len());
    proof {
        lemma_settled(kind, p@, n as int);
    }
    if n <= a {
        let prefix = prefix(kind, p);
        if prefix == 0 && a == 1 && !separator(kind, p[0]) {
            let empty = String::new();
            assert(empty@ =~= Seq::<char>::empty());
            return Some(empty);
        }
        return None;
    }
    let slashes = slashes_at(kind, p);
    let mut start: usize = n;
    while start > a && !slash(slashes, p[start - 1])
        invariant
            a == anchor_len(kind, p@),
            slashes == slashes_in(kind, p@),
            start <= n <= p@.len(),
            name_start(kind, p@, n as int) == name_start(kind, p@, start as int),
        decreases start,
    {
        start -= 1;
    }
    let end = settle(kind, p, start);
    let dir = vstd::slice::slice_subrange(p, 0, end);
    assert(dir@ =~= p@.take(end as int));
    Some(string_of(dir))
}

/// The directory that holds `path`.
pub fn parent(kind: PathKind, path: &str) -> (r: Option<String>)
    ensures
        r.deep_view() == parent_of(kind, path@),
{
    match dir(kind, path) {
        Some(dir) => if chars_of(dir.as_str()).len() == 0 {
            None
        } else {
            Some(dir)
        },
        None => None,
    }
}

/// The roots of a Unix file system.
pub fn list_roots() -> (r: Vec<String>)
    ensures
        r.deep_view() == seq!["/"@],
{
    let mut roots: Vec<String> = Vec::new();
    roots.push("/".to_string());
    assert(roots.deep_view() =~= seq!["/"@]);
    roots
}

/// The root of the drive with the `i`-th letter.
pub open spec fn drive_root(i: int) -> Seq<char> {
    seq![('A' as int + i) as char, ':', '\\']
}

/// The roots of the drives that are present, in the order of their letters.
pub open spec fn drive_roots(present: Seq<bool>) -> Seq<Seq<char>>
    decreases present.len(),
{
    if present.len() == 0 {
        Seq::empty()
    } else if present.last() {
        drive_roots(present.drop_last()).push(drive_root(present.len() - 1))
    } else {
        drive_roots(present.drop_last())
    }
}

/// The roots of a Windows file system, told which drives are present from `A` on.
pub fn list_drives(present: &[bool]) -> (r: Vec<String>)
    requires
        present@.len() <= 26,
    ensures
        r.deep_view() == drive_roots(present@),
{
    let mut roots: Vec<String> = Vec::new();
    assert(roots.deep_view() =~= drive_roots(present@.take(0)));
    for i in 0..present.len()
        invariant
            present@.len() <= 26,
            roots.deep_view() == drive_roots(present@.take(i as int)),
    {
        let ghost before = roots.deep_view();
        assert(present@.take(i + 1).drop_last() =~= present@.take(i as int));
        if present[i] {
            let mut root = String::new();
            root.push((65u8 + i as u8) as char);
            root.push(':');
            root.push('\\');
            assert(root@ =~= drive_root(i as int));
            roots.push(root);
            assert(roots.deep_view() =~= before.push(root@));
        }
    }
    assert(present@.take(present@.len() as int) =~= present@);
    roots
}

/// What the file system tells of an entry: its name, what it is, its length, the whole seconds
/// from the epoch to its last change, and its mode, the last two where they are known.
pub struct Meta {
    pub name: String,
    pub is_dir: bool,
    pub len: u64,
    pub modified: Option<u64>,
    pub mode: Option<u32>,
}

/// What a [`Meta`] tells.
#[verifier::ext_equal]
pub struct MetaView {
    pub name: Seq<char>,
    pub is_dir: bool,
    pub len: u64,
    pub modified: Option<u64>,
    pub mode: Option<u32>,
}

impl DeepView for Meta {
    type V = MetaView;

    open spec fn deep_view(&self) -> MetaView {
        MetaView {
            name: self.name@,
            is_dir: self.is_dir,
            len: self.len,
            modified: self.modified,
            mode: self.mode,
        }
    }
}

/// The row that shows an entry. Directories have no size, and a time beyond what an `i64` holds
/// is shown as the last that it does.
pub open spec fn row_of(meta: MetaView) -> EntryView {
    EntryView {
        name: meta.name,
        is_dir: meta.is_dir,
        size: if meta.is_dir {
            0
        } else {
            meta.len
        },
        modified: match meta.modified {
            Some(secs) => Some(
                if secs > i64::MAX {
                    i64::MAX
                } else {
                    secs as i64
                },
            ),
            None => None,
        },
        perms: match meta.mode {
            Some(mode) => Some(perm_text(mode as int)),
            None => None,
        },
    }
}

/// The row that shows an entry of the file system.
fn entry_of(meta: &Meta) -> (r: FileEntry)
    ensures
        r.deep_view() == row_of(meta.deep_view()),
{
    FileEntry {
        name: meta.name.clone(),
        is_dir: meta.is_dir,
        size: if meta.is_dir {
            0
        } else {
            meta.len
        },
        modified: match meta.modified {
            Some(secs) => Some(
                if secs > i64::MAX as u64 {
                    i64::MAX
                } else {
                    secs as i64
                },
            ),
            None => None,
        },
        perms: match meta.mode {
            Some(mode) => Some(mode_string(mode)),
            None => None,
        },
    }
}

/// The rows of the entries that could be read, in the order in which they were found.
pub open spec fn rows_of(found: Seq<Option<MetaView>>) -> Seq<EntryView>
    decreases found.len(),
{
    if found.len() == 0 {
        Seq::empty()
    } else {
        match found.last() {
            Some(meta) => rows_of(found.drop_last()).push(row_of(meta)),
            None => rows_of(found.drop_last()),
        }
    }
}

/// Lists a directory, told what was found in it; entries that could not be read are left out.
/// Directories come first, and names are sorted whatever their case.
pub fn list_dir(found: &[Option<Meta>]) -> (out: Vec<FileEntry>)
    ensures
        out.deep_view() == crate::ftp::order::sorted_listing(rows_of(found.deep_view())),
{
    let mut out: Vec<FileEntry> = Vec::new();
    let ghost all = found.deep_view();
    assert(out.deep_view() =~= rows_of(all.take(0)));
    for i in 0..found.len()
        invariant
            all == found.deep_view(),
            out.deep_view() == rows_of(all.take(i as int)),
    {
        let ghost before = out.deep_view();
        assert(all.take(i + 1).drop_last() =~= all.take(i as int));
        assert(all[i as int] == found@[i as int].deep_view());
        match &found[i] {
            Some(meta) => {
                let row = entry_of(meta);
                out.push(row);
                assert(out.deep_view() =~= before.push(row_of(meta.deep_view())));
            },
            None => {},
        }
    }
    assert(all.take(all.len() as int) =~= all);
    let ghost rows = out.deep_view();
    let rest = out.as_mut_slice();
    assert(rest.deep_view() =~= rows);
    sort_entries(rest);
    assert(out.deep_view() =~= crate::ftp::order::sorted_listing(rows));
    out
}

/// Whether `name` is one name that leads into `base`: not empty, without separators, not `.`, and
/// not `..` where that would be followed.
pub open spec fn is_name(kind: PathKind, base: Seq<char>, name: Seq<char>) -> bool {
    &&& name.len() > 0
    &&& name != seq!['.']
    &&& is_verbatim(kind, base) ==> name != seq!['.', '.']
    &&& forall|i: int| 0 <= i < name.len() ==> !is_separator(kind, #[trigger] name[i])
}

/// How [`settled`] sees a longer path with the same head.
proof fn lemma_same_head(kind: PathKind, p: Seq<char>, q: Seq<char>, n: int)
    requires
        0 <= n <= p.len(),
        n <= q.len(),
        forall|i: int| 0 <= i < n ==> p[i] == q[i],
        is_verbatim(kind, p) == is_verbatim(kind, q),
        anchor_len(kind, p) == anchor_len(kind, q),
        has_root(kind, p) == has_root(kind, q),
        anchor_len(kind, p) >= 0,
    ensures
        settled(kind, p, n) == settled(kind, q, n),
    decreases n,
{
    if n > anchor_len(kind, p) {
        assert(p[n - 1] == q[n - 1]);
        if n - 1 > anchor_len(kind, p) {
            assert(p[n - 2] == q[n - 2]);
        }
        lemma_same_head(kind, p, q, n - 1);
    }
}

proof fn lemma_name_start(kind: PathKind, p: Seq<char>, from: int, n: int)
    requires
        0 <= anchor_len(kind, p) <= from <= n <= p.len(),
        from == anchor_len(kind, p) || is_slash(slashes_in(kind, p), p[from - 1]),
        forall|i: int| from <= i < n ==> !is_slash(slashes_in(kind, p), #[trigger] p[i]),
    ensures
        name_start(kind, p, n) == from,
    decreases n - from,
{
    if n > from {
        assert(!is_slash(slashes_in(kind, p), p[n - 1]));
        lemma_name_start(kind, p, from, n - 1);
    }
}

proof fn lemma_settled_keeps(kind: PathKind, p: Seq<char>, n: int)
    requires
        0 < n <= p.len(),
    ensures
        settled(kind, p, n) > 0,
    decreases n,
{
    lemma_prefix(kind, p);
    if n > 1 {
        lemma_settled_keeps(kind, p, n - 1);
    }
}

/// How a directory is written as the parent of what it holds: without the separators and dots at
/// its end, and for a bare share or device with its root. A verbatim path is written anew from its
/// names.
pub open spec fn as_parent(kind: PathKind, base: Seq<char>) -> Seq<char> {
    let prefix = prefix_len(kind, base);
    if is_verbatim(kind, base) {
        verbatim_path(
            base.take(prefix),
            true,
            names_from(Slashes::Back, base, anchor_len(kind, base)),
        )
    } else if kind == PathKind::Windows && base.len() == prefix && !has_drive(base)
        && !is_separator(kind, base.last()) {
        base.push('\\')
    } else {
        base.take(settled(kind, base, base.len() as int))
    }
}

/// The parent of a name's path in a directory is that directory. On Windows the name has no
/// prefix, and does not become a part of the prefix of `base`, as the share of a host would.
pub proof fn parent_undoes_join(kind: PathKind, base: Seq<char>, name: Seq<char>)
    requires
        base.len() > 0,
        is_name(kind, base, name),
        prefix_len(kind, name) == 0,
        prefix_len(kind, joined(kind, base, name)) == prefix_len(kind, base),
    ensures
        parent_of(kind, joined(kind, base, name)) == Some(as_parent(kind, base)),
{
    if is_verbatim(kind, base) {
        lemma_parent_undoes_verbatim_join(base, name);
    } else {
        lemma_parent_undoes_plain_join(kind, base, name);
    }
}

proof fn lemma_parent_undoes_plain_join(kind: PathKind, base: Seq<char>, name: Seq<char>)
    requires
        base.len() > 0,
        !is_verbatim(kind, base),
        is_name(kind, base, name),
        prefix_len(kind, name) == 0,
        prefix_len(kind, joined(kind, base, name)) == prefix_len(kind, base),
    ensures
        parent_of(kind, joined(kind, base, name)) == Some(as_parent(kind, base)),
{
    let p = joined(kind, base, name);
    assert(!is_separator(kind, name[0]));
    let start = p.len() - name.len();
    let b = base.len() as int;
    let a = prefix_len(kind, base);
    lemma_prefix(kind, base);
    assert(forall|i: int| 0 <= i < b ==> p[i] == base[i]);
    assert(forall|i: int| 0 <= i < name.len() ==> p[start + i] == name[i]);
    assert(start == b || (start == b + 1 && p[b] == separator_of(kind)));
    assert forall|i: int| start <= i < p.len() implies !is_separator(kind, #[trigger] p[i]) by {
        assert(p[i] == name[i - start]);
    }
    assert(!is_verbatim(kind, p)) by {
        if is_verbatim(kind, p) && b < 4 {
            assert(p[3] == '\\');
            assert(b == 3);
            lemma_prefix(kind, p);
            assert(prefix_len(kind, base) == 0) by {
                assert(!has_drive(base));
                assert(name_end(Slashes::Both, base, 2) == 3) by {
                    lemma_name_end(Slashes::Both, base, 3);
                    assert(base[2] == '?');
                }
                lemma_name_end(Slashes::Both, base, 4);
            }
        }
    }
    let bare = kind == PathKind::Windows && b == a && !has_drive(base) && !is_separator(
        kind,
        base.last(),
    );
    if b == a {
        if bare {
            assert(start == b + 1);
            assert(has_root(kind, p));
        } else if has_drive(base) {
            assert(start == b);
            assert(p[start + 0] == name[0]);
            assert(!has_root(kind, p));
            assert(!starts_here(kind, p)) by {
                if name[0] == '.' {
                    if name.len() == 1 {
                        assert(name =~= seq!['.']);
                    }
                    assert(p[a + 1] == name[1]);
                }
            }
        } else {
            lemma_prefix_ends(base);
            assert(start == b);
            assert(p[start + 0] == name[0]);
            lemma_name_end(Slashes::Both, p, 5);
            assert(false);
        }
    } else {
        assert(has_root(kind, p) == has_root(kind, base));
        assert(starts_here(kind, p) == starts_here(kind, base)) by {
            if b == a + 1 && base[a] == '.' {
                assert(start == b + 1);
            }
        }
    }
    let n = p.len() as int;
    assert(p[n - 1] == name[name.len() - 1]);
    assert(anchor_len(kind, p) <= start);
    assert(settled(kind, p, n) == n) by {
        if p[n - 1] == '.' {
            if name.len() == 1 {
                assert(name =~= seq!['.']);
            }
            assert(p[n - 2] == name[name.len() - 2]);
        }
    }
    lemma_name_start(kind, p, start, n);
    if bare {
        assert(p.take(start) =~= base.push('\\'));
    } else {
        lemma_same_head(kind, p, base, b);
        assert(settled(kind, p, start) == settled(kind, p, b));
        lemma_settled(kind, base, b);
        let k = settled(kind, base, b);
        assert(p.take(k) =~= base.take(k));
        lemma_settled_keeps(kind, base, b);
    }
}

/// A prefix that is neither a drive nor verbatim ends with a name, unless it is that of a device
/// without one.
proof fn lemma_prefix_ends(p: Seq<char>)
    requires
        !is_verbatim(PathKind::Windows, p),
        !has_drive(p),
        prefix_len(PathKind::Windows, p) > 0,
        is_slash(Slashes::Both, p[prefix_len(PathKind::Windows, p) - 1]),
    ensures
        prefix_len(PathKind::Windows, p) == 4,
        p.len() >= 4,
        p[2] == '.',
        is_slash(Slashes::Both, p[3]),
{
    lemma_name_end(Slashes::Both, p, 2);
    lemma_name_end(Slashes::Both, p, name_end(Slashes::Both, p, 2) + 1);
    lemma_name_end(Slashes::Both, p, 4);
}

/// Whether the names are not empty and do not end with a slash.
spec fn are_names(slashes: Slashes, names: Seq<Seq<char>>) -> bool {
    forall|i: int|
        0 <= i < names.len() ==> (#[trigger] names[i]).len() > 0 && !is_slash(
            slashes,
            names[i].last(),
        )
}

proof fn lemma_names(slashes: Slashes, p: Seq<char>, from: int)
    requires
        0 <= from,
    ensures
        are_names(slashes, names_from(slashes, p, from)),
    decreases p.len() - from,
{
    if from < p.len() {
        if is_slash(slashes, p[from]) {
            lemma_names(slashes, p, from + 1);
        } else {
            let end = name_end(slashes, p, from);
            lemma_name_end(slashes, p, from);
            lemma_name_end(slashes, p, from + 1);
            lemma_names(slashes, p, end);
            let first = p.subrange(from, end);
            let rest = names_from(slashes, p, end);
            assert(first.last() == p[end - 1]);
            assert(names_from(slashes, p, from) == seq![first] + rest);
        }
    }
}

/// A text without slashes is one name.
proof fn lemma_one_name(slashes: Slashes, name: Seq<char>)
    requires
        name.len() > 0,
        forall|i: int| 0 <= i < name.len() ==> !is_slash(slashes, #[trigger] name[i]),
    ensures
        names_from(slashes, name, 0) == seq![name],
{
    lemma_name_end(slashes, name, 0);
    let end = name_end(slashes, name, 0);
    assert(end == name.len());
    assert(name.subrange(0, end) =~= name);
    assert(names_from(slashes, name, end) =~= Seq::<Seq<char>>::empty());
    assert(names_from(slashes, name, 0) =~= seq![name]);
}

proof fn lemma_backslashed(names: Seq<Seq<char>>)
    requires
        names.len() > 0,
    ensures
        backslashed(names).len() > 0,
        backslashed(names)[0] == '\\',
    decreases names.len(),
{
    let head = backslashed(names.drop_last());
    assert(backslashed(names) == head + seq!['\\'] + names.last());
    if names.len() > 1 {
        lemma_backslashed(names.drop_last());
        assert(backslashed(names)[0] == head[0]);
    } else {
        assert(head =~= Seq::<char>::empty());
    }
}

proof fn lemma_parent_undoes_verbatim_join(base: Seq<char>, name: Seq<char>)
    requires
        is_verbatim(PathKind::Windows, base),
        is_name(PathKind::Windows, base, name),
        prefix_len(PathKind::Windows, name) == 0,
        prefix_len(PathKind::Windows, joined(PathKind::Windows, base, name)) == prefix_len(
            PathKind::Windows,
            base,
        ),
    ensures
        parent_of(PathKind::Windows, joined(PathKind::Windows, base, name)) == Some(
            as_parent(PathKind::Windows, base),
        ),
{
    let kind = PathKind::Windows;
    let p = joined(kind, base, name);
    let prefix = prefix_len(kind, base);
    lemma_prefix(kind, base);
    let names = names_from(Slashes::Back, base, anchor_len(kind, base));
    assert(!is_separator(kind, name[0]));
    lemma_one_name(Slashes::Both, name);
    let more = seq![name];
    assert(more.drop_last() =~= Seq::<Seq<char>>::empty());
    assert(more.last() == name);
    let nowhere = Seq::<Seq<char>>::empty();
    assert(followed(names, nowhere) == names);
    assert(followed(names, more) == names.push(name));
    let all = names.push(name);
    assert(all.drop_last() =~= names);
    assert(all.last() == name);
    let head = base.take(prefix);
    assert(p == head + backslashed(all));
    assert(p =~= head + backslashed(names) + seq!['\\'] + name);
    lemma_backslashed(all);
    assert(p[prefix] == backslashed(all)[0]);
    assert(forall|i: int| 0 <= i < prefix ==> p[i] == base[i]);
    assert(is_verbatim(kind, p));
    assert(has_root(kind, p));
    let n = p.len() as int;
    let start = n - name.len();
    assert forall|i: int| start <= i < n implies !is_slash(Slashes::Back, #[trigger] p[i]) by {
        assert(p[i] == name[i - start]);
        assert(!is_separator(kind, name[i - start]));
    }
    assert(p[start - 1] == '\\');
    assert(settled(kind, p, n) == n);
    lemma_name_start(kind, p, start, n);
    if names.len() == 0 {
        assert(backslashed(names) =~= Seq::<char>::empty());
        assert(settled(kind, p, start) == start);
        assert(p.take(start) =~= head + seq!['\\']);
    } else {
        lemma_names(Slashes::Back, base, anchor_len(kind, base));
        let last = names.last();
        assert(last == names[names.len() - 1]);
        assert(backslashed(names) == backslashed(names.drop_last()) + seq!['\\'] + last);
        assert(p[start - 2] == last.last());
        assert(settled(kind, p, start - 1) == start - 1);
        assert(settled(kind, p, start) == start - 1);
        assert(p.take(start - 1) =~= head + backslashed(names));
    }
}

/// A parent is never an empty path, and it is a head of the path.
pub proof fn parents_are_heads(kind: PathKind, p: Seq<char>)
    ensures
        parent_of(kind, p) matches Some(dir) ==> {
            &&& 0 < dir.len() < p.len()
            &&& dir == p.take(dir.len() as int)
        },
{
    lemma_prefix(kind, p);
    let n = settled(kind, p, p.len() as int);
    lemma_settled(kind, p, p.len() as int);
    lemma_settled(kind, p, n);
    lemma_settled(kind, p, name_start(kind, p, n));
    if n > anchor_len(kind, p) {
        lemma_settled_at_name(kind, p, p.len() as int);
        lemma_settled(kind, p, n - 1);
    }
}

/// What is left after [`settled`] ends with a name.
proof fn lemma_settled_at_name(kind: PathKind, p: Seq<char>, n: int)
    requires
        0 <= n <= p.len(),
        settled(kind, p, n) > anchor_len(kind, p),
    ensures
        !is_slash(slashes_in(kind, p), p[settled(kind, p, n) - 1]),
    decreases n,
{
    lemma_prefix(kind, p);
    if n > 0 {
        lemma_settled(kind, p, n - 1);
        if settled(kind, p, n) < n {
            lemma_settled_at_name(kind, p, n - 1);
        }
    }
}

/// The roots that a machine lists have no parent.
pub proof fn roots_have_no_parent(i: int)
    requires
        0 <= i < 26,
    ensures
        parent_of(PathKind::Unix, "/"@).is_none(),
        parent_of(PathKind::Windows, drive_root(i)).is_none(),
{
    reveal_strlit("/");
    let root = drive_root(i);
    assert(is_letter(root[0]));
    assert(has_root(PathKind::Windows, root));
}

/// A name is appended to the directory, with no more than one separator between them; one that
/// begins at the root stands for itself on Unix.
pub proof fn joins_append_the_name(kind: PathKind, base: Seq<char>, name: Seq<char>)
    requires
        !is_verbatim(kind, base),
        prefix_len(kind, name) == 0,
        name.len() > 0,
    ensures
        ({
            let p = joined(kind, base, name);
            let n = p.len() - name.len();
            &&& n >= 0 && p.skip(n) == name
            &&& !is_separator(kind, name[0]) ==> {
                &&& p.take(base.len() as int) == base
                &&& base.len() <= n <= base.len() + 1
                &&& n == base.len() + 1 ==> is_separator(kind, p[n - 1]) && !is_separator(
                    kind,
                    base.last(),
                )
                &&& n == base.len() && n > 0 ==> is_separator(kind, base.last()) || (kind
                    == PathKind::Windows && n == 2 && base[1] == ':')
            }
            &&& kind == PathKind::Unix && name[0] == '/' ==> p == name
        }),
{
    let p = joined(kind, base, name);
    let n = p.len() - name.len();
    lemma_prefix(kind, base);
    assert(p.skip(n) =~= name);
    if !is_separator(kind, name[0]) {
        assert(p.take(base.len() as int) =~= base);
    }
    if kind == PathKind::Unix && name[0] == '/' {
        assert(p =~= name);
    }
}

/// A row shows the entry that it is of: its name, whether it is a directory, the size of a file,
/// and its time and mode where they are known.
pub proof fn rows_show_the_entry(meta: MetaView)
    ensures
        ({
            let row = row_of(meta);
            &&& row.name == meta.name && row.is_dir == meta.is_dir
            &&& row.size == if meta.is_dir {
                0
            } else {
                meta.len
            }
            &&& row.modified.is_some() == meta.modified.is_some()
            &&& meta.modified matches Some(at) ==> (at <= i64::MAX ==> row.modified.unwrap() == at)
            &&& row.perms.is_some() == meta.mode.is_some()
            &&& meta.mode matches Some(mode) ==> row.perms == Some(
                digit_letters(mode as int / 64 % 8)
                    + digit_letters(mode as int / 8 % 8)
                    + digit_letters(mode as int % 8),
            )
        }),
{
    match meta.mode {
        Some(mode) => {
            lemma_octal_digits(mode as int);
        },
        None => {},
    }
}

proof fn lemma_octal_digits(m: int)
    requires
        0 <= m,
    ensures
        perm_text(m) == digit_letters(m / 64 % 8)
            + digit_letters(m / 8 % 8) + digit_letters(
            m % 8,
        ),
{
    let (a, b) = (m / 8, m / 64);
    assert(b == a / 8 && m / 512 == b / 8);
    assert(m == 8 * a + m % 8);
    assert(a == 8 * b + a % 8);
    assert(b == 8 * (b / 8) + b % 8);
    modes_are_shown_digit_by_digit(b / 8, b % 8, a % 8, m % 8);
}

/// Every entry that can be read has its row, in the order of the entries, and the others have
/// none.
pub proof fn readable_entries_have_rows(found: Seq<Option<MetaView>>, meta: MetaView)
    ensures
        rows_of(found.push(Some(meta))) == rows_of(found).push(row_of(meta)),
        rows_of(found.push(None)) == rows_of(found),
        rows_of(Seq::empty()) == Seq::<EntryView>::empty(),
{
    assert(found.push(Some(meta)).drop_last() =~= found);
    assert(found.push(None).drop_last() =~= found);
}

/// The drives that are listed are those that are present, each by its letter.
pub proof fn drives_go_by_their_letters(present: Seq<bool>, i: int)
    requires
        present.len() <= 26,
        0 <= i < present.len(),
    ensures
        drive_roots(present).contains(seq![('A' as int + i) as char, ':', '\\']) <==> present[i],
    decreases present.len(),
{
    let n = present.len() - 1;
    let rest = present.drop_last();
    let root = seq![('A' as int + i) as char, ':', '\\'];
    let all = drive_roots(present);
    if i < n {
        drives_go_by_their_letters(rest, i);
        assert(rest[i] == present[i]);
        if present.last() {
            let last = drive_root(n);
            assert(last[0] != root[0]);
            let some = drive_roots(rest);
            assert(all == some.push(last));
            if some.contains(root) {
                let k = choose|k: int| 0 <= k < some.len() && some[k] == root;
                assert(all[k] == root);
            }
            if all.contains(root) {
                let k = choose|k: int| 0 <= k < all.len() && all[k] == root;
                assert(k < some.len());
                assert(some[k] == root);
            }
        }
    } else {
        lemma_later_drives_are_not_listed(rest, i);
        if present.last() {
            assert(all[all.len() - 1] =~= root);
        }
    }
}

proof fn lemma_later_drives_are_not_listed(present: Seq<bool>, i: int)
    requires
        present.len() <= i < 26,
    ensures
        !drive_roots(present).contains(seq![('A' as int + i) as char, ':', '\\']),
    decreases present.len(),
{
    if present.len() > 0 {
        let rest = present.drop_last();
        lemma_later_drives_are_not_listed(rest, i);
        let root = seq![('A' as int + i) as char, ':', '\\'];
        let some = drive_roots(rest);
        let all = drive_roots(present);
        if present.last() && all.contains(root) {
            let k = choose|k: int| 0 <= k < all.len() && all[k] == root;
            assert(drive_root(present.len() - 1)[0] != root[0]);
            assert(k < some.len());
            assert(some[k] == root);
        }
    }
}

/// A name with a drive stands for itself on Windows, and for a name as any other on Unix.
pub proof fn drives_stand_for_themselves(base: Seq<char>, letter: char, rest: Seq<char>)
    requires
        'A' <= letter <= 'Z' || 'a' <= letter <= 'z',
    ensures
        ({
            let name = seq![letter, ':'] + rest;
            &&& joined(PathKind::Windows, base, name) == name
            &&& base.len() > 0 && base.last() != '/' ==> joined(PathKind::Unix, base, name) == base
                + seq!['/'] + name
        }),
{
    let name = seq![letter, ':'] + rest;
    assert(name[0] == letter && name[1] == ':');
}

/// The directory of a file is the one that it was put into; a name alone lies in none that has a
/// name.
pub proof fn files_lie_where_they_were_put(kind: PathKind, base: Seq<char>, name: Seq<char>)
    requires
        is_name(kind, base, name),
        prefix_len(kind, name) == 0,
        prefix_len(kind, joined(kind, base, name)) == prefix_len(kind, base),
    ensures
        base.len() > 0 ==> dir_of(kind, joined(kind, base, name)) == Some(as_parent(kind, base)),
        base.len() == 0 ==> dir_of(kind, joined(kind, base, name)) == Some(Seq::<char>::empty()),
{
    if base.len() > 0 {
        parent_undoes_join(kind, base, name);
    } else {
        let p = joined(kind, base, name);
        assert(p =~= name);
        let n = name.len() as int;
        assert(!is_separator(kind, name[0]));
        assert(!is_verbatim(kind, name)) by {
            if is_verbatim(kind, name) {
                lemma_prefix(kind, name);
            }
        }
        assert(!starts_here(kind, name)) by {
            if name[0] == '.' && n == 1 {
                assert(name =~= seq!['.']);
            }
        }
        assert(settled(kind, name, n) == n) by {
            assert(!is_separator(kind, name[n - 1]));
            if n > 1 {
                assert(!is_separator(kind, name[n - 2]));
            }
        }
        lemma_name_start(kind, name, 0, n);
        assert(name.take(0) =~= Seq::<char>::empty());
    }
}

proof fn lemma_same_start(kind: PathKind, p: Seq<char>, q: Seq<char>, n: int)
    requires
        0 <= n <= p.len(),
        n <= q.len(),
        forall|i: int| 0 <= i < n ==> p[i] == q[i],
        slashes_in(kind, p) == slashes_in(kind, q),
        anchor_len(kind, p) == anchor_len(kind, q),
        anchor_len(kind, p) >= 0,
    ensures
        name_start(kind, p, n) == name_start(kind, q, n),
    decreases n,
{
    if n > anchor_len(kind, p) {
        assert(p[n - 1] == q[n - 1]);
        lemma_same_start(kind, p, q, n - 1);
    }
}

/// A slash at the end of a Unix path does not change what holds it.
pub proof fn parents_ignore_a_trailing_slash(p: Seq<char>)
    ensures
        parent_of(PathKind::Unix, p.push('/')) == parent_of(PathKind::Unix, p),
{
    let kind = PathKind::Unix;
    let q = p.push('/');
    let n = p.len() as int;
    if n > 0 {
        assert(has_root(kind, q) == has_root(kind, p));
        assert(starts_here(kind, q) == starts_here(kind, p));
        lemma_same_head(kind, p, q, n);
        assert(settled(kind, q, n + 1) == settled(kind, q, n));
        let k = settled(kind, p, n);
        lemma_settled(kind, p, n);
        lemma_same_start(kind, p, q, k);
        let start = name_start(kind, p, k);
        lemma_settled(kind, p, k);
        lemma_same_head(kind, p, q, start);
        lemma_settled(kind, p, start);
        let m = settled(kind, p, start);
        assert(q.take(m) =~= p.take(m));
    }
}

/// On Unix a slash joins the names of a path and leads from a file to its directory; a backslash
/// is a character of a name as any other. On Windows, within a drive, a backslash joins them.
pub proof fn slashes_part_names(dir: Seq<char>, name: Seq<char>, drive: char)
    requires
        dir.len() > 0 ==> dir.last() != '/' && dir.last() != '\\' && dir.last() != '.',
        name.len() > 0,
        name != seq!['.'],
        !name.contains('/'),
        'A' <= drive <= 'Z' || 'a' <= drive <= 'z',
    ensures
        dir.len() > 0 ==> {
            &&& joined(PathKind::Unix, dir, name) == dir + seq!['/'] + name
            &&& parent_of(PathKind::Unix, dir + seq!['/'] + name) == Some(dir)
        },
        parent_of(PathKind::Unix, seq!['/'] + name) == Some(seq!['/']),
        parent_of(PathKind::Unix, name).is_none(),
        dir.len() > 0 && !name.contains('\\') && !name.contains(':') ==> {
            let inside = seq![drive, ':', '\\'] + dir;
            &&& joined(PathKind::Windows, inside, name) == inside + seq!['\\'] + name
            &&& parent_of(PathKind::Windows, inside + seq!['\\'] + name) == Some(inside)
        },
{
    let kind = PathKind::Unix;
    assert forall|i: int| 0 <= i < name.len() implies !is_separator(kind, #[trigger] name[i]) by {
        assert(name.contains(name[i]));
    }
    if dir.len() > 0 {
        parent_undoes_join(kind, dir, name);
        assert(dir.take(dir.len() as int) =~= dir);
    }
    let root = seq!['/'];
    assert(joined(kind, root, name) =~= root + name);
    parent_undoes_join(kind, root, name);
    assert(root.take(1) =~= root);
    files_lie_where_they_were_put(kind, Seq::empty(), name);
    assert(joined(kind, Seq::empty(), name) =~= name);
    if dir.len() > 0 && !name.contains('\\') && !name.contains(':') {
        lemma_within_a_drive(dir, name, drive);
    }
}

proof fn lemma_within_a_drive(dir: Seq<char>, name: Seq<char>, drive: char)
    requires
        dir.len() > 0,
        dir.last() != '/' && dir.last() != '\\' && dir.last() != '.',
        name.len() > 0,
        name != seq!['.'],
        !name.contains('/') && !name.contains('\\') && !name.contains(':'),
        'A' <= drive <= 'Z' || 'a' <= drive <= 'z',
    ensures
        ({
            let inside = seq![drive, ':', '\\'] + dir;
            &&& joined(PathKind::Windows, inside, name) == inside + seq!['\\'] + name
            &&& parent_of(PathKind::Windows, inside + seq!['\\'] + name) == Some(inside)
        }),
{
    let kind = PathKind::Windows;
    let inside = seq![drive, ':', '\\'] + dir;
    assert(inside[0] == drive && inside[1] == ':' && inside[2] == '\\');
    assert(inside.last() == dir.last());
    assert forall|i: int| 0 <= i < name.len() implies !is_separator(kind, #[trigger] name[i])
        && name[i] != ':' by {
        assert(name.contains(name[i]));
    }
    assert(prefix_len(kind, inside) == 2);
    assert(prefix_len(kind, name) == 0);
    let p = joined(kind, inside, name);
    assert(p =~= inside + seq!['\\'] + name);
    assert(p[0] == drive && p[1] == ':');
    assert(prefix_len(kind, p) == 2);
    parent_undoes_join(kind, inside, name);
    assert(inside.take(inside.len() as int) =~= inside);
}

} // verus!
