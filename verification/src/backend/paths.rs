use vstd::prelude::*;
use crate::domain::scan::{split_on, split_text, starts_with, starts_with_text, views};
use crate::domain::text::{owned, text_eq};

verus! {

/// The named parts of a path, as `Path::components` yields them after the
/// root: the pieces between slashes, without empty pieces and `.`.
pub open spec fn path_parts(p: Seq<char>) -> Seq<Seq<char>> {
    split_on(p, '/').filter(|x: Seq<char>| x.len() > 0 && x != "."@)
}

/// The store path that contains `p`: `/nix/store/<name>` where `p` is an
/// absolute path whose first parts are `nix`, `store` and `<name>`.
pub open spec fn containing_store_path_spec(p: Seq<char>) -> Option<Seq<char>> {
    let parts = path_parts(p);
    if starts_with(p, "/"@) && parts.len() >= 3 && parts[0] == "nix"@ && parts[1] == "store"@ {
        Some("/nix/store/"@ + parts[2])
    } else {
        None
    }
}

/// The named parts of a path.
pub fn path_parts_of(p: &str) -> (r: Vec<String>)
    ensures
        views(r@) == path_parts(p@),
{
    let pieces = split_text(p, '/');
    let ghost all = split_on(p@, '/');
    let mut r: Vec<String> = Vec::new();
    let mut i: usize = 0;
    while i < pieces.len()
        invariant
            i <= pieces.len(),
            views(pieces@) == all,
            views(r@) == all.take(i as int).filter(|x: Seq<char>| x.len() > 0 && x != "."@),
        decreases pieces.len() - i,
    {
        proof {
            reveal_with_fuel(Seq::filter, 1);
            assert(all.take(i + 1).drop_last() =~= all.take(i as int));
            assert(all[i as int] == pieces@[i as int]@);
        }
        let piece = &pieces[i];
        if piece.as_str().unicode_len() > 0 && !text_eq(piece.as_str(), ".") {
            let ghost before = views(r@);
            r.push(piece.clone());
            assert(views(r@) =~= before.push(pieces@[i as int]@));
        }
        i += 1;
    }
    assert(all.take(pieces.len() as int) =~= all);
    r
}

/// The Nix store path that contains `path`, as `/nix/store/<name>`.
pub fn containing_store_path(path: &str) -> (r: Option<String>)
    ensures
        match r {
            Some(s) => containing_store_path_spec(path@) == Some(s@),
            None => containing_store_path_spec(path@) is None,
        },
{
    if !crate::domain::scan::starts_with_text(path, "/") {
        return None;
    }
    let parts = path_parts_of(path);
    if parts.len() < 3 {
        return None;
    }
    assert(views(parts@)[0] == parts@[0]@);
    assert(views(parts@)[1] == parts@[1]@);
    assert(views(parts@)[2] == parts@[2]@);
    if !text_eq(parts[0].as_str(), "nix") || !text_eq(parts[1].as_str(), "store") {
        return None;
    }
    let mut r = owned("/nix/store/");
    r.append(parts[2].as_str());
    Some(r)
}

/// Whether the absolute path `p` is exactly its containing store path, as
/// `Path` equality compares them: by their parts.
pub open spec fn is_store_path_itself(p: Seq<char>) -> bool {
    path_parts(p).len() == 3
}

/// Whether a relative path begins with the current directory `.`, which
/// `Path::components` keeps only in that place.
pub open spec fn leads_with_cur_dir(p: Seq<char>) -> bool {
    !starts_with(p, "/"@) && (p == "."@ || starts_with(p, "./"@))
}

/// Whether the path `a` names the same path as `b`, as `Path` equality
/// compares them, component by component: both absolute or both not, both
/// led by `.` or neither, with the same parts.
pub open spec fn same_path(a: Seq<char>, b: Seq<char>) -> bool {
    &&& starts_with(a, "/"@) == starts_with(b, "/"@)
    &&& leads_with_cur_dir(a) == leads_with_cur_dir(b)
    &&& path_parts(a) == path_parts(b)
}

fn cur_dir_led(p: &str) -> (r: bool)
    ensures
        r == leads_with_cur_dir(p@),
{
    !starts_with_text(p, "/") && (text_eq(p, ".") || starts_with_text(p, "./"))
}

/// Whether two paths are equal as `Path`s.
pub fn same_path_text(a: &str, b: &str) -> (r: bool)
    ensures
        r == same_path(a@, b@),
{
    if starts_with_text(a, "/") != starts_with_text(b, "/") {
        return false;
    }
    if cur_dir_led(a) != cur_dir_led(b) {
        return false;
    }
    let pa = path_parts_of(a);
    let pb = path_parts_of(b);
    if pa.len() != pb.len() {
        assert(views(pa@).len() != views(pb@).len());
        return false;
    }
    let mut i: usize = 0;
    while i < pa.len()
        invariant
            i <= pa.len(),
            pa.len() == pb.len(),
            views(pa@) == path_parts(a@),
            views(pb@) == path_parts(b@),
            forall|k: int| 0 <= k < i ==> pa@[k]@ == pb@[k]@,
        decreases pa.len() - i,
    {
        if !text_eq(pa[i].as_str(), pb[i].as_str()) {
            assert(views(pa@)[i as int] == pa@[i as int]@);
            assert(views(pb@)[i as int] == pb@[i as int]@);
            assert(views(pa@) != views(pb@));
            return false;
        }
        i += 1;
    }
    assert(views(pa@) =~= views(pb@));
    true
}

/// `path` followed by `name`, with a slash between them where `path` does
/// not end with one, as `Path::join` gives it for a relative `name`.
pub open spec fn join_path(path: Seq<char>, name: Seq<char>) -> Seq<char> {
    if path.len() > 0 && path.last() != '/' {
        path + "/"@ + name
    } else {
        path + name
    }
}

/// `Path::join` of a name that is not absolute.
pub fn join_path_text(path: &str, name: &str) -> (r: String)
    ensures
        r@ == join_path(path@, name@),
{
    let v = crate::domain::text::chars_of(path);
    let mut r = owned(path);
    if v.len() > 0 && v[v.len() - 1] != '/' {
        r.append("/");
    }
    r.append(name);
    r
}

} // verus!
