//! The name under which a source file is shown in rendered diagnostics.
use vstd::prelude::*;
use vstd::string::*;

verus! {

/// A backslash shown as a forward slash; any other character as it is.
pub open spec fn slash_char(c: char) -> char {
    if c == '\\' { '/' } else { c }
}

/// The text with every backslash replaced by a forward slash.
pub open spec fn forward_slashes(s: Seq<char>) -> Seq<char> {
    s.map_values(|c: char| slash_char(c))
}

/// Replaces every backslash of `s` by a forward slash, so that paths read the same
/// on every platform.
pub fn with_forward_slashes(s: &str) -> (r: String)
    ensures
        r@ == forward_slashes(s@),
{
    let n = s.unicode_len();
    let mut out = String::new();
    let mut seg: usize = 0;
    let mut i: usize = 0;
    while i < n
        invariant
            seg <= i <= n,
            n == s@.len(),
            out@ == forward_slashes(s@.subrange(0, seg as int)),
            forall|k: int| seg <= k < i ==> #[trigger] s@[k] != '\\',
        decreases n - i,
    {
        if s.get_char(i) == '\\' {
            let part = s.substring_char(seg, i);
            proof {
                let head = s@.subrange(0, seg as int);
                let whole = s@.subrange(0, i as int + 1);
                assert(s@[i as int] == '\\');
                reveal_strlit("/");
                assert("/"@ =~= seq!['/']);
                assert forall|k: int| 0 <= k < whole.len() implies #[trigger] forward_slashes(whole)[k]
                    == (forward_slashes(head) + part@ + "/"@)[k] by {
                    if k < seg {
                        assert(whole[k] == head[k]);
                    } else if k < i {
                        assert(whole[k] == s@[k]);
                        assert(part@[k - seg] == s@[k]);
                    }
                }
                assert(forward_slashes(whole) =~= forward_slashes(head) + part@ + "/"@);
            }
            out.append(part);
            out.append("/");
            seg = i + 1;
        }
        i = i + 1;
    }
    let rest = s.substring_char(seg, n);
    proof {
        let head = s@.subrange(0, seg as int);
        assert forall|k: int| 0 <= k < s@.len() implies #[trigger] forward_slashes(s@)[k]
            == (forward_slashes(head) + rest@)[k] by {
            if k < seg {
                assert(s@[k] == head[k]);
            } else {
                assert(rest@[k - seg] == s@[k]);
            }
        }
        assert(forward_slashes(s@) =~= forward_slashes(head) + rest@);
    }
    out.append(rest);
    out
}

/// A character that may stand in a plain path component: anything but a separator
/// (`/` or `\\`) or a drive colon.
pub open spec fn plain_char(c: char) -> bool {
    c != '/' && c != '\\' && c != ':'
}

/// Whether position `i` of `s` starts a component (the text's start, or after a `/`).
pub open spec fn starts_component(s: Seq<char>, i: int) -> bool {
    i == 0 || s[i - 1] == '/'
}

/// Whether position `i` of `s` ends a component (the text's end, or a `/`).
pub open spec fn ends_component(s: Seq<char>, i: int) -> bool {
    i == s.len() || s[i] == '/'
}

/// A relative path written plainly: components of plain characters, none of them `.`
/// or `..`, joined by single `/`, with no `/` at either end.
pub open spec fn plain_relative(s: Seq<char>) -> bool {
    &&& s.len() > 0
    &&& s[0] != '/'
    &&& s[s.len() - 1] != '/'
    &&& forall|i: int| 0 <= i < s.len() ==> (#[trigger] s[i] == '/' || plain_char(s[i]))
    &&& forall|i: int| 0 <= i < s.len() - 1 ==> !(#[trigger] s[i] == '/' && s[i + 1] == '/')
    &&& forall|i: int| 0 <= i < s.len() && #[trigger] s[i] == '.' && starts_component(s, i) ==> !ends_component(s, i + 1)
        && !(i + 1 < s.len() && s[i + 1] == '.' && ends_component(s, i + 2))
}

/// A path written plainly: a plain relative path, or `/` followed by one.
pub open spec fn plain_path(s: Seq<char>) -> bool {
    plain_relative(s) || (s.len() >= 2 && s[0] == '/' && plain_relative(s.drop_first()))
}

/// What stripping `base` from `path` gives on every platform: nothing left where the
/// two are the same text, and the remaining components where `path` is the plain
/// path `base` followed by `/` and a plain relative path.
pub open spec fn stripped_facts(path: Seq<char>, base: Seq<char>, r: Option<String>) -> bool {
    &&& path == base ==> (r matches Some(s) && s@.len() == 0)
    &&& forall|rest: Seq<char>| plain_path(base) && plain_relative(rest) && path == #[trigger] (base + seq!['/'] + rest)
        ==> (r matches Some(s) && s@ == rest)
}

/// Calls `std::path::Path::strip_prefix`, with `path` and `base` as paths and the
/// remainder turned back into text: the path that, joined onto `base`, gives `path`,
/// or `None` when `base` is not a prefix of `path`. How a path splits into components
/// depends on the platform, so the contract states only what holds on all of them:
/// the same path leaves nothing, and a plain path under a plain base leaves the
/// components after it. Other results (`.` components, repeated or trailing
/// separators, drive prefixes) are left unsaid.
#[verifier::external_body]
fn strip_path_prefix(path: &str, base: &str) -> (r: Option<String>)
    ensures
        stripped_facts(path@, base@, r),
{
    std::path::Path::new(path).strip_prefix(base).ok().map(|rest| rest.to_string_lossy().into_owned())
}

/// The source of a diagnostic: the file's path, the directory it is shown relative
/// to (if any) and the file's text.
#[derive(Debug, Clone, Copy)]
pub struct DiagnosticSource<'a> {
    pub cwd: Option<&'a str>,
    pub path: &'a str,
    pub source_text: &'a str,
}

/// The name shown for `path`, given what stripping the working directory from it left
/// (`None` where that directory is not a prefix of it): the remainder where there is
/// one, else the whole path, with every backslash turned into a forward slash.
pub open spec fn shown_text(path: Seq<char>, stripped: Option<String>) -> Seq<char> {
    forward_slashes(
        match stripped {
            Some(s) => s@,
            None => path,
        },
    )
}

/// The path as shown, given what stripping the working directory from it left.
pub fn shown_name(path: &str, stripped: Option<String>) -> (r: String)
    ensures
        r@ == shown_text(path@, stripped),
{
    match stripped {
        Some(rest) => with_forward_slashes(rest.as_str()),
        None => with_forward_slashes(path),
    }
}

impl<'a> DiagnosticSource<'a> {
    /// The path as shown: relative to `cwd` where it lies under it, with forward
    /// slashes. Without `cwd` the whole path is shown; with one, the result is what
    /// [`shown_name`] makes of what stripping `cwd` from the path left.
    pub fn display_name(&self) -> (r: String)
        ensures
            self.cwd is None ==> r@ == forward_slashes(self.path@),
            self.cwd matches Some(cwd) ==> exists|stripped: Option<String>| stripped_facts(self.path@, cwd@, stripped)
                && r@ == #[trigger] shown_text(self.path@, stripped),
    {
        match self.cwd {
            Some(cwd) => {
                let stripped = strip_path_prefix(self.path, cwd);
                shown_name(self.path, stripped)
            },
            None => shown_name(self.path, None),
        }
    }
}

} // verus!
