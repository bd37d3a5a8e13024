use vstd::prelude::*;

verus! {

/// The separator between two path components.
pub open spec fn is_separator(c: char) -> bool {
    c == '/'
}

/// `part` is absolute when it starts at the root.
pub open spec fn is_absolute(part: Seq<char>) -> bool {
    part.len() > 0 && is_separator(part[0])
}

/// Appending `part` to `base`, as a path buffer does on a system whose
/// separator is `/`: an absolute `part` replaces `base`; otherwise a
/// separator is put between the two unless `base` is empty or already ends
/// with one.
pub open spec fn spec_push(base: Seq<char>, part: Seq<char>) -> Seq<char> {
    if is_absolute(part) {
        part
    } else if base.len() > 0 && !is_separator(base.last()) {
        base + seq!['/'] + part
    } else {
        base + part
    }
}

/// The path obtained by pushing each part in turn onto an empty path.
pub open spec fn spec_join_all(parts: Seq<Seq<char>>) -> Seq<char>
    decreases parts.len(),
{
    if parts.len() == 0 {
        Seq::empty()
    } else {
        spec_push(spec_join_all(parts.drop_last()), parts.last())
    }
}

/// Appends `part` to the path held in `path`.
pub fn push_path(path: &mut String, part: &str)
    ensures
        final(path)@ == spec_push(old(path)@, part@),
{
    let part_len = part.unicode_len();
    if part_len > 0 && part.get_char(0) == '/' {
        *path = part.to_owned();
        return;
    }
    let len = path.as_str().unicode_len();
    if len > 0 && path.as_str().get_char(len - 1) != '/' {
        path.append("/");
        proof {
            reveal_strlit("/");
        }
    }
    path.append(part);
    proof {
        assert(final(path)@ =~= spec_push(old(path)@, part@));
    }
}

} // verus!
