use vstd::prelude::*;

use crate::path_model::components_before;
use crate::path_model::components_end_with;
use crate::path_model::components_from;
use crate::path_model::components_start_with;
use crate::path_model::concat_components;
use crate::path_model::copy_components;
use crate::path_model::has_prefix;
use crate::path_model::has_suffix;
use crate::path_model::is_rooted;
use crate::path_model::last_dot_before;
use crate::path_model::parse_components;
use crate::path_model::path_components;
use crate::path_model::relative_components;
use crate::path_model::render;
use crate::path_model::render_components;
use crate::path_model::spec_extension;
use crate::path_model::spec_file_name;
use crate::path_model::spec_relative_path;
use crate::path_model::starts_at_root;
use crate::path_model::string_views;
use crate::text::chars_of;
use crate::text::string_of;

verus! {

/// Why a path was refused.
#[derive(Debug, Clone, PartialEq, Eq)]
pub enum PathValidationError {
    NonUtf8,
    /// The path does not start at the root.
    NotAbsolute(String),
    /// The path starts at the root.
    NotRelative(String),
    /// The first path is not a leading part of the second.
    NotParent(String, String),
}

/// A path that does not start at the root, as its components.
#[derive(Debug, Clone, PartialEq, Eq)]
pub struct RelativeSystemPathBuf {
    components: Vec<String>,
}

/// A path that starts at the root, as its components.
#[derive(Debug, Clone, PartialEq, Eq)]
pub struct AbsoluteSystemPathBuf {
    components: Vec<String>,
    /// Whether the text the path came from started at the root; only a path
    /// made by `new_unchecked` can lack it.
    rooted: bool,
}

/// An absolute path looked at in place, as its components.
#[derive(Debug, Clone, PartialEq, Eq)]
pub struct AbsoluteSystemPath {
    components: Vec<String>,
}

/// A relative path meant to be resolved against an absolute one, as its
/// components.
#[derive(Debug, Clone, PartialEq, Eq)]
pub struct AnchoredSystemPathBuf {
    components: Vec<String>,
}

impl View for RelativeSystemPathBuf {
    type V = Seq<Seq<char>>;

    closed spec fn view(&self) -> Seq<Seq<char>> {
        string_views(self.components@)
    }
}

impl View for AbsoluteSystemPathBuf {
    type V = Seq<Seq<char>>;

    closed spec fn view(&self) -> Seq<Seq<char>> {
        string_views(self.components@)
    }
}

impl View for AbsoluteSystemPath {
    type V = Seq<Seq<char>>;

    closed spec fn view(&self) -> Seq<Seq<char>> {
        string_views(self.components@)
    }
}

impl View for AnchoredSystemPathBuf {
    type V = Seq<Seq<char>>;

    closed spec fn view(&self) -> Seq<Seq<char>> {
        string_views(self.components@)
    }
}

/// The file name of a path with components `comps`.
fn file_name_of(comps: &Vec<String>) -> (r: Option<String>)
    ensures
        match r {
            Some(s) => spec_file_name(string_views(comps@)) == Some(s@),
            None => spec_file_name(string_views(comps@)) is None,
        },
{
    let n = comps.len();
    if n == 0 {
        return None;
    }
    let last = comps[n - 1].clone();
    let up: Vec<char> = vec!['.', '.'];
    let up_text = string_of(&up);
    proof {
        assert(up@ =~= seq!['.', '.']);
        assert(string_views(comps@).last() == comps@[n - 1]@);
    }
    if last == up_text {
        None
    } else {
        Some(last)
    }
}

/// The extension of a path with components `comps`.
fn extension_of(comps: &Vec<String>) -> (r: Option<String>)
    ensures
        match r {
            Some(s) => spec_extension(string_views(comps@)) == Some(s@),
            None => spec_extension(string_views(comps@)) is None,
        },
{
    let name = match file_name_of(comps) {
        Some(name) => name,
        None => {
            return None;
        },
    };
    let chars = chars_of(name.as_str());
    let mut end: usize = chars.len();
    while end > 0 && chars[end - 1] != '.'
        invariant
            end <= chars@.len(),
            chars@ == name@,
            last_dot_before(name@, name@.len() as int) == last_dot_before(name@, end as int),
        decreases end,
    {
        end = end - 1;
    }
    if end <= 1 {
        proof {
            if end == 1 {
                assert(last_dot_before(name@, 1) == Some(0int));
            }
        }
        return None;
    }
    let dot = end - 1;
    let mut tail: Vec<char> = Vec::new();
    let mut j: usize = dot + 1;
    while j < chars.len()
        invariant
            dot + 1 <= j <= chars@.len(),
            tail@ == chars@.subrange(dot + 1, j as int),
        decreases chars@.len() - j,
    {
        tail.push(chars[j]);
        proof {
            assert(chars@.subrange(dot + 1, j + 1) =~= chars@.subrange(dot + 1, j as int).push(
                chars@[j as int],
            ));
        }
        j = j + 1;
    }
    Some(string_of(&tail))
}

impl RelativeSystemPathBuf {
    /// The path `path`, unless it starts at the root.
    pub fn new(path: &str) -> (r: Option<Self>)
        ensures
            r is None <==> is_rooted(path@),
            r matches Some(p) ==> p@ == path_components(path@),
    {
        if starts_at_root(path) {
            None
        } else {
            Some(RelativeSystemPathBuf { components: parse_components(path) })
        }
    }

    /// The path `path`, read as relative whether or not it starts at the root.
    pub fn new_unchecked(path: &str) -> (r: Self)
        ensures
            r@ == path_components(path@),
    {
        RelativeSystemPathBuf { components: parse_components(path) }
    }

    /// The text of the path.
    pub fn as_path(&self) -> (r: String)
        ensures
            r@ == render(false, self@),
    {
        render_components(false, &self.components)
    }

    pub fn components(&self) -> (r: Vec<String>)
        ensures
            string_views(r@) == self@,
    {
        copy_components(&self.components)
    }

    /// The path without its last component; none where it has no component.
    pub fn parent(&self) -> (r: Option<Self>)
        ensures
            r is None <==> self@.len() == 0,
            r matches Some(p) ==> p@ == self@.drop_last(),
    {
        let n = self.components.len();
        if n == 0 {
            None
        } else {
            let c = components_before(&self.components, n - 1);
            proof {
                assert(self@.subrange(0, n - 1) =~= self@.drop_last());
            }
            Some(RelativeSystemPathBuf { components: c })
        }
    }

    /// Whether `base` is a leading part of the path, component by component.
    pub fn starts_with(&self, base: &RelativeSystemPathBuf) -> (r: bool)
        ensures
            r == has_prefix(self@, base@),
    {
        components_start_with(&self.components, &base.components)
    }

    /// Whether `child` is a trailing part of the path, component by component.
    pub fn ends_with(&self, child: &RelativeSystemPathBuf) -> (r: bool)
        ensures
            r == has_suffix(self@, child@),
    {
        components_end_with(&self.components, &child.components)
    }

    /// The path followed by `path`.
    pub fn join(&self, path: &RelativeSystemPathBuf) -> (r: RelativeSystemPathBuf)
        ensures
            r@ == self@ + path@,
    {
        RelativeSystemPathBuf { components: concat_components(&self.components, &path.components) }
    }

    /// The text of the path; every path of this library is valid UTF-8.
    pub fn to_str(&self) -> (r: Option<String>)
        ensures
            r matches Some(s) && s@ == render(false, self@),
    {
        Some(render_components(false, &self.components))
    }

    /// The last component, unless the path ends in `".."` or is empty.
    pub fn file_name(&self) -> (r: Option<String>)
        ensures
            match r {
                Some(s) => spec_file_name(self@) == Some(s@),
                None => spec_file_name(self@) is None,
            },
    {
        file_name_of(&self.components)
    }

    /// What follows the last `'.'` of the file name, where that `'.'` is not
    /// its first character.
    pub fn extension(&self) -> (r: Option<String>)
        ensures
            match r {
                Some(s) => spec_extension(self@) == Some(s@),
                None => spec_extension(self@) is None,
            },
    {
        extension_of(&self.components)
    }
}

impl AnchoredSystemPathBuf {
    /// The path `path`, unless it starts at the root.
    pub fn from_raw(path: &str) -> (r: Result<Self, PathValidationError>)
        ensures
            r is Err <==> is_rooted(path@),
            r matches Ok(p) ==> p@ == path_components(path@),
            r matches Err(e) ==> e matches PathValidationError::NotRelative(s) && s@ == path@,
    {
        if starts_at_root(path) {
            Err(PathValidationError::NotRelative(path.to_owned()))
        } else {
            Ok(AnchoredSystemPathBuf { components: parse_components(path) })
        }
    }

    /// The text of the path.
    pub fn as_path(&self) -> (r: String)
        ensures
            r@ == render(false, self@),
    {
        render_components(false, &self.components)
    }

    pub fn components(&self) -> (r: Vec<String>)
        ensures
            string_views(r@) == self@,
    {
        copy_components(&self.components)
    }
}

/// The part of `path` below `base`, or `NotParent` where `base` is not a
/// leading part of it.
fn strip_base(base_rooted: bool, base: &Vec<String>, path_rooted: bool, path: &Vec<String>) -> (r: Result<AnchoredSystemPathBuf, PathValidationError>)
    ensures
        r is Ok <==> has_prefix(string_views(path@), string_views(base@)),
        r matches Ok(p) ==> p@ == string_views(path@).subrange(
            string_views(base@).len() as int,
            string_views(path@).len() as int,
        ),
        r matches Err(e) ==> e matches PathValidationError::NotParent(a, b) && a@ == render(
            base_rooted,
            string_views(base@),
        ) && b@ == render(path_rooted, string_views(path@)),
{
    if components_start_with(path, base) {
        Ok(AnchoredSystemPathBuf { components: components_from(path, base.len()) })
    } else {
        Err(
            PathValidationError::NotParent(
                render_components(base_rooted, base),
                render_components(path_rooted, path),
            ),
        )
    }
}

impl AbsoluteSystemPathBuf {
    /// The path `unchecked_path`, or `NotAbsolute` where it does not start at
    /// the root.
    pub fn new(unchecked_path: &str) -> (r: Result<Self, PathValidationError>)
        ensures
            r is Err <==> !is_rooted(unchecked_path@),
            r matches Ok(p) ==> p@ == path_components(unchecked_path@) && p.spec_rooted(),
            r matches Err(e) ==> e matches PathValidationError::NotAbsolute(s) && s@
                == unchecked_path@,
    {
        if !starts_at_root(unchecked_path) {
            return Err(PathValidationError::NotAbsolute(unchecked_path.to_owned()));
        }
        Ok(AbsoluteSystemPathBuf { components: parse_components(unchecked_path), rooted: true })
    }

    /// Whether the path starts at the root; only `new_unchecked` makes one
    /// that does not.
    pub closed spec fn spec_rooted(&self) -> bool {
        self.rooted
    }

    /// The path `path` as it is, without checking that it starts at the root.
    pub fn new_unchecked(path: &str) -> (r: Self)
        ensures
            r@ == path_components(path@),
            r.spec_rooted() == is_rooted(path@),
    {
        let rooted = starts_at_root(path);
        AbsoluteSystemPathBuf { components: parse_components(path), rooted }
    }

    /// The path as an [`AbsoluteSystemPath`].
    pub fn as_absolute_path(&self) -> (r: AbsoluteSystemPath)
        ensures
            r@ == self@,
    {
        AbsoluteSystemPath { components: copy_components(&self.components) }
    }

    /// The part of `path` below this path.
    pub fn anchor(&self, path: &AbsoluteSystemPathBuf) -> (r: Result<
        AnchoredSystemPathBuf,
        PathValidationError,
    >)
        ensures
            r is Ok <==> has_prefix(path@, self@),
            r matches Ok(p) ==> p@ == path@.subrange(self@.len() as int, path@.len() as int),
            r matches Err(e) ==> e matches PathValidationError::NotParent(a, b) && a@ == render(
                self.spec_rooted(),
                self@,
            ) && b@ == render(path.spec_rooted(), path@),
    {
        strip_base(self.rooted, &self.components, path.rooted, &path.components)
    }

    /// `path` resolved against this path.
    pub fn resolve(&self, path: &AnchoredSystemPathBuf) -> (r: AbsoluteSystemPathBuf)
        ensures
            r@ == self@ + path@,
            r.spec_rooted() == self.spec_rooted(),
    {
        AbsoluteSystemPathBuf {
            components: concat_components(&self.components, &path.components),
            rooted: self.rooted,
        }
    }

    /// The text of the path.
    pub fn as_path(&self) -> (r: String)
        ensures
            r@ == render(self.spec_rooted(), self@),
    {
        render_components(self.rooted, &self.components)
    }

    pub fn components(&self) -> (r: Vec<String>)
        ensures
            string_views(r@) == self@,
    {
        copy_components(&self.components)
    }

    /// The path without its last component; none for the root.
    pub fn parent(&self) -> (r: Option<Self>)
        ensures
            r is None <==> self@.len() == 0,
            r matches Some(p) ==> p@ == self@.drop_last() && p.spec_rooted() == self.spec_rooted(),
    {
        let n = self.components.len();
        if n == 0 {
            None
        } else {
            let c = components_before(&self.components, n - 1);
            proof {
                assert(self@.subrange(0, n - 1) =~= self@.drop_last());
            }
            Some(AbsoluteSystemPathBuf { components: c, rooted: self.rooted })
        }
    }

    /// Whether `base` is a leading part of the path, component by component.
    pub fn starts_with(&self, base: &AbsoluteSystemPathBuf) -> (r: bool)
        ensures
            r == has_prefix(self@, base@),
    {
        components_start_with(&self.components, &base.components)
    }

    /// Whether `child` is a trailing part of the path, component by component.
    pub fn ends_with(&self, child: &RelativeSystemPathBuf) -> (r: bool)
        ensures
            r == has_suffix(self@, child@),
    {
        components_end_with(&self.components, &child.components)
    }

    /// The path followed by `path`.
    pub fn join(&self, path: &RelativeSystemPathBuf) -> (r: AbsoluteSystemPathBuf)
        ensures
            r@ == self@ + path@,
            r.spec_rooted() == self.spec_rooted(),
    {
        AbsoluteSystemPathBuf {
            components: concat_components(&self.components, &path.components),
            rooted: self.rooted,
        }
    }

    /// The path followed by `path`.
    pub fn join_relative(&self, path: RelativeSystemPathBuf) -> (r: AbsoluteSystemPathBuf)
        ensures
            r@ == self@ + path@,
            r.spec_rooted() == self.spec_rooted(),
    {
        AbsoluteSystemPathBuf {
            components: concat_components(&self.components, &path.components),
            rooted: self.rooted,
        }
    }

    /// The text of the path; every path of this library is valid UTF-8.
    pub fn to_str(&self) -> (r: Result<String, PathValidationError>)
        ensures
            r matches Ok(s) && s@ == render(self.spec_rooted(), self@),
    {
        Ok(render_components(self.rooted, &self.components))
    }

    /// The text of the path.
    pub fn to_string_lossy(&self) -> (r: String)
        ensures
            r@ == render(self.spec_rooted(), self@),
    {
        render_components(self.rooted, &self.components)
    }

    /// The text of the path.
    pub fn into_path_buf(self) -> (r: String)
        ensures
            r@ == render(self.spec_rooted(), self@),
    {
        render_components(self.rooted, &self.components)
    }

    /// The last component, unless the path ends in `".."` or is the root.
    pub fn file_name(&self) -> (r: Option<String>)
        ensures
            match r {
                Some(s) => spec_file_name(self@) == Some(s@),
                None => spec_file_name(self@) is None,
            },
    {
        file_name_of(&self.components)
    }

    /// What follows the last `'.'` of the file name, where that `'.'` is not
    /// its first character.
    pub fn extension(&self) -> (r: Option<String>)
        ensures
            match r {
                Some(s) => spec_extension(self@) == Some(s@),
                None => spec_extension(self@) is None,
            },
    {
        extension_of(&self.components)
    }
}

impl AbsoluteSystemPath {
    /// The path `value`, or `NotAbsolute` where it does not start at the root.
    pub fn new(value: &str) -> (r: Result<Self, PathValidationError>)
        ensures
            r is Err <==> !is_rooted(value@),
            r matches Ok(p) ==> p@ == path_components(value@),
            r matches Err(e) ==> e matches PathValidationError::NotAbsolute(s) && s@ == value@,
    {
        if !starts_at_root(value) {
            return Err(PathValidationError::NotAbsolute(value.to_owned()));
        }
        Ok(AbsoluteSystemPath { components: parse_components(value) })
    }

    /// The text of the path.
    pub fn as_path(&self) -> (r: String)
        ensures
            r@ == render(true, self@),
    {
        render_components(true, &self.components)
    }

    /// The text of the path.
    pub fn to_string(&self) -> (r: String)
        ensures
            r@ == render(true, self@),
    {
        render_components(true, &self.components)
    }

    /// The path and each of its ancestors, down to the root.
    pub fn ancestors(&self) -> (r: Vec<AbsoluteSystemPath>)
        ensures
            r@.len() == self@.len() + 1,
            forall|i: int| 0 <= i < r@.len() ==> #[trigger] r@[i]@ == self@.subrange(0, self@.len() - i),
    {
        let n = self.components.len();
        let mut out: Vec<AbsoluteSystemPath> = Vec::new();
        let mut k: usize = 0;
        while k < n
            invariant
                n == self@.len(),
                k <= n,
                out@.len() == k,
                forall|i: int| 0 <= i < k ==> #[trigger] out@[i]@ == self@.subrange(0, n - i),
            decreases n - k,
        {
            let c = components_before(&self.components, n - k);
            out.push(AbsoluteSystemPath { components: c });
            k = k + 1;
        }
        let root = components_before(&self.components, 0);
        out.push(AbsoluteSystemPath { components: root });
        out
    }

    /// The part of `path` below this path.
    pub fn anchor(&self, path: &AbsoluteSystemPath) -> (r: Result<
        AnchoredSystemPathBuf,
        PathValidationError,
    >)
        ensures
            r is Ok <==> has_prefix(path@, self@),
            r matches Ok(p) ==> p@ == path@.subrange(self@.len() as int, path@.len() as int),
            r matches Err(e) ==> e matches PathValidationError::NotParent(a, b) && a@ == render(
                true,
                self@,
            ) && b@ == render(true, path@),
    {
        strip_base(true, &self.components, true, &path.components)
    }

    /// `path` resolved against this path.
    pub fn resolve(&self, path: &AnchoredSystemPathBuf) -> (r: AbsoluteSystemPathBuf)
        ensures
            r@ == self@ + path@,
            r.spec_rooted(),
    {
        AbsoluteSystemPathBuf {
            components: concat_components(&self.components, &path.components),
            rooted: true,
        }
    }

    pub fn components(&self) -> (r: Vec<String>)
        ensures
            string_views(r@) == self@,
    {
        copy_components(&self.components)
    }

    /// The path that leads from this path to `other`: up out of every
    /// component past the shared leading part, then down into the rest of
    /// `other`.
    pub fn relative_path_to(&self, other: &AbsoluteSystemPath) -> (r: AnchoredSystemPathBuf)
        ensures
            r@ == spec_relative_path(self@, other@),
    {
        AnchoredSystemPathBuf { components: relative_components(&self.components, &other.components) }
    }
}

} // verus!
