//! Absolute Unix paths as texts: their last component, their parent, and files beside them.

use crate::text::{
    append, chars_of, decimal, decimal_chars, decimal_plain, decimal_reads_back, join, join_with,
    parts_view, spells, split, split_join, split_on, split_plain, string_of,
};
use vstd::prelude::*;

verus! {

/// Holds of paths that start at the root.
pub open spec fn absolute(p: Seq<char>) -> bool {
    p.len() > 0 && p[0] == '/'
}

/// Whether a path starts at the root.
pub fn is_absolute(p: &str) -> (r: bool)
    ensures
        r == absolute(p@),
{
    let chars = chars_of(p);
    chars.len() > 0 && chars[0] == '/'
}

/// Holds of the parts between slashes that name nothing: empty ones, and single dots.
pub open spec fn hollow(part: Seq<char>) -> bool {
    part.len() == 0 || part == "."@
}

/// The parts without hollow ones at the end.
pub open spec fn solid(parts: Seq<Seq<char>>) -> Seq<Seq<char>>
    decreases parts.len(),
{
    if parts.len() > 0 && hollow(parts.last()) {
        solid(parts.drop_last())
    } else {
        parts
    }
}

/// The last component of a path: nothing if it has none, or goes up at its end.
pub open spec fn file_name_of(p: Seq<char>) -> Option<Seq<char>> {
    let parts = solid(split_on(p, '/'));
    if parts.len() == 0 || parts.last() == ".."@ {
        None
    } else {
        Some(parts.last())
    }
}

/// An absolute path without its last component; nothing if it has none.
pub open spec fn parent_of(p: Seq<char>) -> Option<Seq<char>> {
    let parts = solid(split_on(p, '/'));
    if parts.len() == 0 {
        None
    } else {
        let rest = solid(parts.drop_last());
        Some(if rest.len() == 0 {
            "/"@
        } else {
            join_with(rest, '/')
        })
    }
}

/// The directory that a path is in; the root is in itself.
pub open spec fn dir_of(p: Seq<char>) -> Seq<char> {
    match parent_of(p) {
        Some(d) => d,
        None => "/"@,
    }
}

/// The path of `name` in a directory.
pub open spec fn inside(dir: Seq<char>, name: Seq<char>) -> Seq<char> {
    if dir.len() > 0 && dir.last() == '/' {
        dir + name
    } else {
        dir.push('/') + name
    }
}

fn solid_len(parts: &Vec<Vec<char>>, upto: usize) -> (n: usize)
    requires
        upto <= parts@.len(),
    ensures
        n <= upto,
        parts_view(parts@).take(n as int) == solid(parts_view(parts@).take(upto as int)),
{
    let ghost all = parts_view(parts@);
    let mut n: usize = upto;
    while n > 0 && (parts[n - 1].len() == 0 || spells(parts[n - 1].as_slice(), "."))
        invariant
            n <= upto <= parts@.len(),
            all == parts_view(parts@),
            solid(all.take(n as int)) == solid(all.take(upto as int)),
        decreases n,
    {
        assert(all.take(n as int).drop_last() =~= all.take(n - 1));
        assert(all.take(n as int).last() == parts@[n - 1]@);
        n = n - 1;
    }
    assert(n > 0 ==> all.take(n as int).last() == parts@[n - 1]@);
    n
}

fn take_parts(parts: &Vec<Vec<char>>, n: usize) -> (r: Vec<Vec<char>>)
    requires
        n <= parts@.len(),
    ensures
        parts_view(r@) == parts_view(parts@).take(n as int),
{
    let mut r: Vec<Vec<char>> = Vec::new();
    let mut i: usize = 0;
    while i < n
        invariant
            i <= n <= parts@.len(),
            parts_view(r@) =~= parts_view(parts@).take(i as int),
        decreases n - i,
    {
        let ghost before = r@;
        r.push(vstd::slice::slice_to_vec(parts[i].as_slice()));
        assert(parts_view(r@) =~= parts_view(before).push(parts@[i as int]@));
        i += 1;
    }
    r
}

/// The last component of a path.
pub fn file_name(p: &str) -> (r: Option<Vec<char>>)
    ensures
        match r {
            Some(n) => file_name_of(p@) == Some(n@),
            None => file_name_of(p@) is None,
        },
{
    let chars = chars_of(p);
    let parts = split(chars.as_slice(), '/');
    let ghost all = parts_view(parts@);
    assert(all.take(parts@.len() as int) =~= all);
    let n: usize = solid_len(&parts, parts.len());
    if n == 0 {
        return None;
    }
    assert(all.take(n as int).last() == parts@[n - 1]@);
    if spells(parts[n - 1].as_slice(), "..") {
        return None;
    }
    Some(vstd::slice::slice_to_vec(parts[n - 1].as_slice()))
}

/// The directory that a path is in.
pub fn dir(p: &str) -> (r: String)
    ensures
        r@ == dir_of(p@),
{
    let chars = chars_of(p);
    let parts = split(chars.as_slice(), '/');
    let ghost all = parts_view(parts@);
    assert(all.take(parts@.len() as int) =~= all);
    let n: usize = solid_len(&parts, parts.len());
    if n == 0 {
        return "/".to_string();
    }
    assert(all.take(n as int).drop_last() =~= all.take(n - 1));
    let m: usize = solid_len(&parts, n - 1);
    if m == 0 {
        return "/".to_string();
    }
    let rest = take_parts(&parts, m);
    string_of(join(&rest, '/').as_slice())
}

/// The name of the file in which the new content of a file is prepared.
pub open spec fn temp_name(name: Option<Seq<char>>, mark: Seq<char>, pid: u32) -> Seq<char> {
    seq!['.'] + (match name {
        Some(n) => n,
        None => seq![],
    }) + mark + decimal(pid as nat)
}

/// The path of the file in which the new content of the file at `p` is prepared: beside it, under a
/// name that tells the file, the purpose and the process.
pub open spec fn temp_of(p: Seq<char>, mark: Seq<char>, pid: u32) -> Seq<char> {
    inside(dir_of(p), temp_name(file_name_of(p), mark, pid))
}

/// The path of the file in which the new content of the file at `p` is prepared.
pub fn temp_path(p: &str, mark: &str, pid: u32) -> (r: String)
    ensures
        r@ == temp_of(p@, mark@, pid),
{
    let mut out = chars_of(dir(p).as_str());
    if out.len() == 0 || out[out.len() - 1] != '/' {
        out.push('/');
    }
    let ghost base = out@;
    out.push('.');
    let ghost mut name: Seq<char> = seq![];
    match file_name(p) {
        Some(n) => {
            let mut chars = n;
            proof {
                name = chars@;
            }
            out.append(&mut chars);
        },
        None => {},
    }
    append(&mut out, mark);
    let mut digits = decimal_chars(pid as u64);
    out.append(&mut digits);
    assert(out@ =~= base + (seq!['.'] + name + mark@ + decimal(pid as nat)));
    string_of(out.as_slice())
}

// ---------- Laws ----------

/// Cutting a text that ends with a separator and a part without one: the part comes last.
pub proof fn split_behind(a: Seq<char>, b: Seq<char>, sep: char)
    requires
        !b.contains(sep),
    ensures
        split_on(a.push(sep) + b, sep) == split_on(a, sep).push(b),
    decreases b.len(),
{
    let all = a.push(sep) + b;
    if b.len() == 0 {
        assert(all =~= a.push(sep));
        assert(all.drop_last() =~= a);
        assert(b =~= seq![]);
    } else {
        let shorter = b.drop_last();
        assert(!shorter.contains(sep)) by {
            if shorter.contains(sep) {
                let i = choose|i: int| 0 <= i < shorter.len() && shorter[i] == sep;
                assert(b[i] == sep);
            }
        }
        split_behind(a, shorter, sep);
        assert(all.drop_last() =~= a.push(sep) + shorter);
        assert(b[b.len() - 1] != sep);
        assert(all.last() == b.last());
        assert(shorter.push(b.last()) =~= b);
        let before = split_on(a, sep).push(shorter);
        assert(before.drop_last().push(b) =~= split_on(a, sep).push(b));
    }
}

/// The parts of a joined text are the parts, if there are any and none holds the separator.
pub proof fn split_joined(parts: Seq<Seq<char>>, sep: char)
    requires
        parts.len() > 0,
        forall|i: int| 0 <= i < parts.len() ==> !(#[trigger] parts[i]).contains(sep),
    ensures
        split_on(join_with(parts, sep), sep) == parts,
    decreases parts.len(),
{
    if parts.len() == 1 {
        let p = parts[0];
        assert(!p.contains(sep));
        split_plain(p, sep);
        assert(parts =~= seq![p]);
    } else {
        let before = parts.drop_last();
        assert forall|i: int| 0 <= i < before.len() implies !(#[trigger] before[i]).contains(
            sep,
        ) by {
            assert(before[i] == parts[i]);
        }
        split_joined(before, sep);
        assert(!parts[parts.len() - 1].contains(sep));
        split_behind(join_with(before, sep), parts.last(), sep);
        assert(before.push(parts.last()) =~= parts);
    }
}

proof fn solid_is_prefix(parts: Seq<Seq<char>>)
    ensures
        solid(parts).len() <= parts.len(),
        solid(parts) == parts.take(solid(parts).len() as int),
        solid(parts).len() > 0 ==> !hollow(solid(parts).last()),
        solid(solid(parts)) == solid(parts),
    decreases parts.len(),
{
    if parts.len() > 0 && hollow(parts.last()) {
        solid_is_prefix(parts.drop_last());
        let n = solid(parts).len() as int;
        assert(parts.drop_last().take(n) =~= parts.take(n));
    } else {
        assert(parts.take(parts.len() as int) =~= parts);
    }
}

/// The content of a file is prepared in the directory that the file is in, so that moving it into
/// place stays within one directory; and under another path than the file's own.
pub proof fn temp_beside_target(p: Seq<char>, mark: Seq<char>, pid: u32)
    requires
        absolute(p),
        !mark.contains('/'),
    ensures
        parent_of(temp_of(p, mark, pid)) == Some(dir_of(p)),
        file_name_of(temp_of(p, mark, pid)) == Some(temp_name(file_name_of(p), mark, pid)),
        temp_of(p, mark, pid) != p,
{
    let name = temp_name(file_name_of(p), mark, pid);
    let parts = split_on(p, '/');
    let full = solid(parts);
    split_join(p, '/');
    solid_is_prefix(parts);
    reveal_strlit(".");
    reveal_strlit("..");
    reveal_strlit("/");
    decimal_plain(pid as nat);
    let digits = decimal(pid as nat);
    // The new name holds no slash and is no dot.
    assert(!name.contains('/')) by {
        if name.contains('/') {
            let i = choose|i: int| 0 <= i < name.len() && name[i] == '/';
            let own: Seq<char> = match file_name_of(p) {
                Some(n) => n,
                None => seq![],
            };
            let k = own.len() as int;
            let m = mark.len() as int;
            if 1 <= i < 1 + k {
                assert(own[i - 1] == '/');
                assert(own == parts[full.len() - 1]);
                assert(parts[full.len() - 1].contains('/'));
            } else if 1 + k <= i < 1 + k + m {
                assert(mark[i - 1 - k] == '/');
            } else if i >= 1 + k + m {
                assert(digits[i - 1 - k - m] == '/');
            }
        }
    }
    assert(name.len() >= 2) by {
        assert(digits.len() > 0);
    }
    assert(!hollow(name));
    assert(name != ".."@) by {
        let last = name[name.len() - 1];
        assert(last == digits[digits.len() - 1]);
        assert(name.len() == 2 ==> name[1] == last);
    }
    let d = dir_of(p);
    let t = temp_of(p, mark, pid);
    // The parts of the directory.
    let rest = if full.len() == 0 { full } else { solid(full.drop_last()) };
    if full.len() > 0 {
        solid_is_prefix(full.drop_last());
    }
    assert(parent_of(t) == Some(d) && file_name_of(t) == Some(name)) by {
        if rest.len() == 0 {
            assert(d =~= seq!['/']);
            assert(t =~= Seq::<char>::empty().push('/') + name);
            split_behind(Seq::<char>::empty(), name, '/');
            let ps = split_on(t, '/');
            assert(split_on(Seq::<char>::empty(), '/') =~= seq![Seq::<char>::empty()]);
            assert(ps =~= seq![Seq::<char>::empty(), name]);
            assert(solid(ps) == ps);
            assert(ps.drop_last() =~= seq![Seq::<char>::empty()]);
            assert(ps.drop_last().drop_last() =~= Seq::<Seq<char>>::empty());
            reveal_with_fuel(solid, 3);
            assert(solid(ps.drop_last()).len() == 0);
        } else {
            assert forall|i: int| 0 <= i < rest.len() implies !(#[trigger] rest[i]).contains(
                '/',
            ) by {
                assert(rest[i] == full.drop_last()[i]);
                assert(full.drop_last()[i] == parts[i]);
            }
            split_joined(rest, '/');
            joined_end(rest, '/');
            assert(d == join_with(rest, '/'));
            assert(!rest[rest.len() - 1].contains('/'));
            assert(d.last() != '/') by {
                let e = rest[rest.len() - 1];
                assert(e[e.len() - 1] == d.last());
            }
            assert(t == d.push('/') + name);
            split_behind(d, name, '/');
            let ps = split_on(t, '/');
            assert(ps == rest.push(name));
            assert(ps.last() == name);
            assert(solid(ps) == ps);
            assert(ps.drop_last() =~= rest);
            assert(solid(rest) == rest);
        }
    }
    assert(t != p) by {
        if t == p {
            // The new name is longer than the file's own.
            assert(file_name_of(p) == Some(name));
            assert(name.len() > name.len());
        }
    }
}

proof fn joined_end(parts: Seq<Seq<char>>, sep: char)
    requires
        parts.len() > 0,
        parts.last().len() > 0,
    ensures
        join_with(parts, sep).len() > 0,
        join_with(parts, sep).last() == parts.last().last(),
{
    if parts.len() == 1 {
        assert(parts[0] == parts.last());
    }
}

/// The path of a file in a directory comes apart into the two again: its last component is the name, whole,
/// and what it is in is the directory.
pub proof fn path_comes_apart(
    d: Seq<char>,
    name: Seq<char>,
    p: &str,
    n: Option<Vec<char>>,
    r: String,
)
    requires
        p@ == d.push('/') + name,
        !name.contains('/'),
        name.len() > 0,
        name != "."@,
        name != ".."@,
        d.len() == 0 || !hollow(split_on(d, '/').last()),
        call_ensures(file_name, (p,), n),
        call_ensures(dir, (p,), r),
    ensures
        n matches Some(x) && x@ == name,
        r@ == if d.len() == 0 {
            "/"@
        } else {
            d
        },
{
    split_behind(d, name, '/');
    split_join(d, '/');
    let front = split_on(d, '/');
    let parts = front.push(name);
    assert(parts.last() == name);
    assert(solid(parts) == parts);
    assert(parts.drop_last() =~= front);
    if d.len() == 0 {
        assert(front =~= seq![Seq::<char>::empty()]);
        assert(front.drop_last() =~= Seq::<Seq<char>>::empty());
        reveal_with_fuel(solid, 2);
        assert(solid(front).len() == 0);
    } else {
        assert(solid(front) == front);
    }
}

/// Slashes at the end of a path do not count: it has the same last component and is in the same directory.
pub proof fn end_slashes_do_not_count(p: Seq<char>)
    ensures
        file_name_of(p.push('/')) == file_name_of(p),
        dir_of(p.push('/')) == dir_of(p),
        parent_of(p.push('/')) == parent_of(p),
{
    split_behind(p, Seq::<char>::empty(), '/');
    assert(p.push('/') + Seq::<char>::empty() =~= p.push('/'));
    let parts = split_on(p, '/').push(Seq::<char>::empty());
    assert(parts.drop_last() =~= split_on(p, '/'));
}

/// A path starts at the root if a slash is its first character.
pub proof fn root_starts_with_slash(p: &str, r: bool)
    requires
        call_ensures(is_absolute, (p,), r),
    ensures
        r <==> p@.len() > 0 && p@[0] == '/',
{
}

/// Where content is prepared tells the file and the process: it is beside the file, under a name that
/// starts with a dot and the file's own, and two processes do not meet there.
pub proof fn prepared_places_differ(
    p: &str,
    mark: &str,
    a: u32,
    b: u32,
    x: String,
    y: String,
    own: Option<Vec<char>>,
)
    requires
        absolute(p@),
        !mark@.contains('/'),
        call_ensures(temp_path, (p, mark, a), x),
        call_ensures(temp_path, (p, mark, b), y),
        call_ensures(file_name, (p,), own),
    ensures
        x@ == y@ ==> a == b,
        parent_of(x@) == Some(dir_of(p@)),
        x@ != p@,
        file_name_of(x@) matches Some(n) && (own matches Some(o) ==> (seq!['.'] + o@).is_prefix_of(n)),
{
    temp_beside_target(p@, mark@, a);
    temp_beside_target(p@, mark@, b);
    let name = file_name_of(p@);
    let front = seq!['.'] + (match name {
        Some(n) => n,
        None => seq![],
    }) + mark@;
    if x@ == y@ {
        assert(temp_name(name, mark@, a) == temp_name(name, mark@, b));
        assert(temp_name(name, mark@, a).skip(front.len() as int) =~= decimal(a as nat));
        assert(temp_name(name, mark@, b).skip(front.len() as int) =~= decimal(b as nat));
        decimal_reads_back(a as nat);
        decimal_reads_back(b as nat);
    }
    if let Some(o) = own {
        let n = temp_name(name, mark@, a);
        assert(n.subrange(0, (seq!['.'] + o@).len() as int) =~= seq!['.'] + o@);
    }
}

/// A dot at the end of a path names nothing, and two dots are no name: the path then has none, but is in
/// the directory that stands before them.
pub proof fn dots_are_no_names(d: Seq<char>)
    ensures
        file_name_of(d.push('/') + "."@) == file_name_of(d),
        dir_of(d.push('/') + "."@) == dir_of(d),
        file_name_of(d.push('/') + ".."@) is None,
        d.len() > 0 && !hollow(split_on(d, '/').last()) ==> dir_of(d.push('/') + ".."@) == d,
{
    reveal_strlit(".");
    reveal_strlit("..");
    split_behind(d, "."@, '/');
    split_behind(d, ".."@, '/');
    split_join(d, '/');
    let front = split_on(d, '/');
    assert(front.push("."@).drop_last() =~= front);
    assert(front.push(".."@).drop_last() =~= front);
    assert(".."@.len() == 2 && "."@.len() == 1);
}

}
