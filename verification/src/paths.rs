//! File paths as sequences of components: the name shown for a source file,
//! and the folder that asset packs are installed into.

use vstd::prelude::*;
use vstd::string::*;

use crate::text::chars_of;

verus! {

broadcast use vstd::string::group_string_axioms;

/// One component of a path: a root or drive prefix (with its text), `.`,
/// `..`, or a name.
#[derive(Debug, PartialEq, Eq)]
pub enum PathPart {
    Root(String),
    Current,
    Parent,
    Name(String),
}

/// A path component as mathematical values.
pub enum PartModel {
    Root(Seq<char>),
    Current,
    Parent,
    Name(Seq<char>),
}

impl View for PathPart {
    type V = PartModel;

    open spec fn view(&self) -> PartModel {
        match self {
            PathPart::Root(s) => PartModel::Root(s@),
            PathPart::Current => PartModel::Current,
            PathPart::Parent => PartModel::Parent,
            PathPart::Name(s) => PartModel::Name(s@),
        }
    }
}

impl Clone for PathPart {
    fn clone(&self) -> (c: Self)
        ensures
            c@ == self@,
    {
        match self {
            PathPart::Root(s) => PathPart::Root(s.clone()),
            PathPart::Current => PathPart::Current,
            PathPart::Parent => PathPart::Parent,
            PathPart::Name(s) => PathPart::Name(s.clone()),
        }
    }
}

/// The components of a path, as values.
pub open spec fn parts_view(p: Seq<PathPart>) -> Seq<PartModel> {
    p.map_values(|x: PathPart| x@)
}

fn copy_parts(parts: &Vec<PathPart>, out: &mut Vec<PathPart>)
    ensures
        parts_view(final(out)@) == parts_view(old(out)@) + parts_view(parts@),
{
    let ghost start = parts_view(out@);
    let mut i: usize = 0;
    while i < parts.len()
        invariant
            i <= parts@.len(),
            start == parts_view(old(out)@),
            parts_view(out@) == start + parts_view(parts@.take(i as int)),
        decreases parts@.len() - i,
    {
        let ghost prev = out@;
        let c = parts[i].clone();
        out.push(c);
        proof {
            assert(parts_view(out@) =~= parts_view(prev).push(c@));
            assert(parts@.take(i + 1) =~= parts@.take(i as int).push(parts@[i as int]));
            assert(parts_view(parts@.take(i + 1)) =~= parts_view(parts@.take(i as int)).push(
                parts@[i as int]@,
            ));
            assert(parts_view(out@) =~= start + parts_view(parts@.take(i + 1)));
        }
        i = i + 1;
    }
    proof {
        assert(parts@.take(i as int) =~= parts@);
    }
}

// ---------------------------------------------------------------------------
// The name of a file
// ---------------------------------------------------------------------------

/// The name a path's file is shown under: its last component when that is a
/// name, else `Image`.
pub open spec fn shown_name(p: Seq<PartModel>) -> Seq<char> {
    if p.len() > 0 && p.last() is Name {
        p.last()->Name_0
    } else {
        "Image"@
    }
}

/// The name a source file is shown under in the source list; see
/// `shown_name`.
pub fn display_name(parts: &Vec<PathPart>) -> (name: String)
    ensures
        name@ == shown_name(parts_view(parts@)),
{
    let n = parts.len();
    if n > 0 {
        match &parts[n - 1] {
            PathPart::Name(s) => {
                return s.clone();
            },
            _ => {},
        }
    }
    String::from_str("Image")
}

// ---------------------------------------------------------------------------
// The install folder
// ---------------------------------------------------------------------------

/// The path without its last component when that component is the name
/// `assets`, else the path as it is: packs go to `assets/<pack>/…` below the
/// root, so a chosen `assets` folder stands for its parent.
pub open spec fn strip_assets_leaf(p: Seq<PartModel>) -> Seq<PartModel> {
    if p.len() > 0 && p.last() == PartModel::Name("assets"@) {
        p.drop_last()
    } else {
        p
    }
}

fn is_assets_name(n: &String) -> (b: bool)
    ensures
        b == (n@ == "assets"@),
{
    proof {
        reveal_strlit("assets");
    }
    let c = chars_of(n.as_str());
    let b = c.len() == 6 && c[0] == 'a' && c[1] == 's' && c[2] == 's' && c[3] == 'e' && c[4] == 't'
        && c[5] == 's';
    proof {
        if b {
            assert(c@ =~= "assets"@);
        }
    }
    b
}

fn strip_assets(parts: &mut Vec<PathPart>)
    ensures
        parts_view(final(parts)@) == strip_assets_leaf(parts_view(old(parts)@)),
{
    let n = parts.len();
    if n == 0 {
        return;
    }
    let strip = match &parts[n - 1] {
        PathPart::Name(s) => is_assets_name(s),
        _ => false,
    };
    proof {
        reveal_strlit("assets");
        let v = parts_view(parts@);
        assert(v.last() == parts@[n - 1]@);
    }
    if strip {
        parts.pop();
        proof {
            assert(parts_view(parts@) =~= parts_view(old(parts)@).drop_last());
        }
    }
}

/// The folder packs are installed into, given the Wonderdraft folder `folder`
/// and the `custom_assets_directory` it configures, if any: a configured
/// absolute path is used as it is, a configured relative path is taken inside
/// `folder`, and with nothing configured `folder` itself is used; in each case
/// a final `assets` component is dropped.
pub open spec fn install_root_of(folder: Seq<PartModel>, custom: Option<(Seq<PartModel>, bool)>) -> Seq<
    PartModel,
> {
    strip_assets_leaf(
        match custom {
            Some((p, true)) => p,
            Some((p, false)) => folder + p,
            None => folder,
        },
    )
}

/// The install folder for the Wonderdraft folder `folder`, whose
/// `config.ini` configures `custom` (its components, and whether the path is
/// absolute); see `install_root_of`.
pub fn install_root_components(folder: &Vec<PathPart>, custom: Option<(Vec<PathPart>, bool)>) -> (root: Vec<
    PathPart,
>)
    ensures
        parts_view(root@) == install_root_of(
            parts_view(folder@),
            match custom {
                Some((p, absolute)) => Some((parts_view(p@), absolute)),
                None => None,
            },
        ),
{
    let mut root: Vec<PathPart> = Vec::new();
    match custom {
        Some((p, true)) => {
            copy_parts(&p, &mut root);
        },
        Some((p, false)) => {
            copy_parts(folder, &mut root);
            copy_parts(&p, &mut root);
        },
        None => {
            copy_parts(folder, &mut root);
        },
    }
    proof {
        assert(parts_view(Seq::<PathPart>::empty()) =~= Seq::<PartModel>::empty());
    }
    strip_assets(&mut root);
    root
}

/// The install folder for a chosen folder that holds no `config.ini`: the
/// folder itself, or its parent when it is an `assets` folder.
pub fn install_root_for_selection(selection: &Vec<PathPart>) -> (root: Vec<PathPart>)
    ensures
        parts_view(root@) == strip_assets_leaf(parts_view(selection@)),
{
    let mut root: Vec<PathPart> = Vec::new();
    copy_parts(selection, &mut root);
    proof {
        assert(parts_view(Seq::<PathPart>::empty()) + parts_view(selection@) =~= parts_view(selection@));
    }
    strip_assets(&mut root);
    root
}

/// A file is shown under its own name: a path that ends in the name `n`
/// shows `n`, whatever comes before it.
pub proof fn law_file_is_shown_by_its_name(p: Seq<PartModel>, n: Seq<char>)
    ensures
        shown_name(p.push(PartModel::Name(n))) == n,
{
}

/// An `assets` folder stands for its parent, and only such a folder is cut:
/// the path `p` followed by `assets` becomes `p`, and a path that does not
/// end in the name `assets` stays as it is.
pub proof fn law_assets_folder_stands_for_its_parent(p: Seq<PartModel>)
    ensures
        strip_assets_leaf(p.push(PartModel::Name("assets"@))) == p,
        (p.len() == 0 || p.last() != PartModel::Name("assets"@)) ==> strip_assets_leaf(p) == p,
{
    assert(p.push(PartModel::Name("assets"@)).drop_last() =~= p);
}

/// Where packs are installed: a configured absolute path, whatever the
/// Wonderdraft folder is; a configured relative path inside the Wonderdraft
/// folder; the Wonderdraft folder itself when nothing is configured; each
/// with a final `assets` folder standing for its parent.
pub proof fn law_install_root_follows_the_configuration(
    folder: Seq<PartModel>,
    other_folder: Seq<PartModel>,
    configured: Seq<PartModel>,
)
    ensures
        install_root_of(folder, None) == strip_assets_leaf(folder),
        install_root_of(folder, Some((configured, true))) == strip_assets_leaf(configured),
        install_root_of(folder, Some((configured, true))) == install_root_of(
            other_folder,
            Some((configured, true)),
        ),
        configured.len() > 0 ==> install_root_of(folder, Some((configured, false))) == folder
            + strip_assets_leaf(configured),
{
    if configured.len() > 0 {
        let whole = folder + configured;
        assert(whole.last() == configured.last());
        assert(whole.drop_last() =~= folder + configured.drop_last());
    }
}

} // verus!
