//! Path mounting: a path template of one application is exposed externally
//! under that application's mount path, joined with exactly one separator.

use vstd::prelude::*;

verus! {

/// The external key of a path template mounted under a mount path: the two
/// concatenated with a single `/` between them — a trailing `/` of the
/// mount path is dropped, a missing leading `/` of the template is
/// supplied, so the separator is never doubled and never missing.
pub open spec fn join_paths_spec(mount: Seq<char>, template: Seq<char>) -> Seq<char> {
    let m = if mount.len() > 0 && mount[mount.len() - 1] == '/' {
        mount.drop_last()
    } else {
        mount
    };
    let t = if template.len() > 0 && template[0] == '/' {
        template
    } else {
        seq!['/'] + template
    };
    m + t
}

/// Joins a mount path and a path template with a single separator.
pub fn join_paths(mount: &str, template: &str) -> (res: String)
    ensures
        res@ == join_paths_spec(mount@, template@),
{
    let mlen = mount.unicode_len();
    let mut res: String;
    if mlen > 0 && mount.get_char(mlen - 1) == '/' {
        res = mount.substring_char(0, mlen - 1).to_owned();
    } else {
        res = mount.to_owned();
    }
    let tlen = template.unicode_len();
    if !(tlen > 0 && template.get_char(0) == '/') {
        res.append("/");
        proof {
            reveal_strlit("/");
            assert("/"@ =~= seq!['/']);
        }
    }
    res.append(template);
    proof {
        assert(res@ =~= join_paths_spec(mount@, template@));
    }
    res
}

} // verus!
