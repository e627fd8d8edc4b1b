//! The settings of the app: the vault to read, the default view, the theme
//! and the saved views. Reading and writing the TOML file is left to the
//! program around the library; these are the values it holds.
use crate::view::ViewData;
use vstd::prelude::*;

verus! {

/// The whole configuration.
#[derive(Debug)]
pub struct Config {
    pub workspace: WorkspaceConfig,
    pub defaults: DefaultsConfig,
    pub theme: ThemeConfig,
    pub views: Vec<ViewConfig>,
}

/// Where the vault is.
#[derive(Debug)]
pub struct WorkspaceConfig {
    pub path: String,
}

/// The view to show first.
#[derive(Debug)]
pub struct DefaultsConfig {
    pub view: String,
}

/// The color theme.
#[derive(Debug)]
pub struct ThemeConfig {
    pub colors: String,
}

/// A saved view.
#[derive(Debug)]
pub struct ViewConfig {
    pub name: String,
    pub query: String,
    pub sort_by: String,
    pub group_by: String,
}

/// The settings as plain values.
pub struct ConfigData {
    pub workspace: Seq<char>,
    pub default_view: Seq<char>,
    pub colors: Seq<char>,
    pub views: Seq<ViewData>,
}

impl View for ViewConfig {
    type V = ViewData;

    open spec fn view(&self) -> ViewData {
        ViewData {
            name: self.name@,
            query: self.query@,
            sort_by: self.sort_by@,
            group_by: self.group_by@,
        }
    }
}

pub open spec fn view_config_datas(v: Seq<ViewConfig>) -> Seq<ViewData> {
    v.map_values(|c: ViewConfig| c@)
}

impl View for Config {
    type V = ConfigData;

    open spec fn view(&self) -> ConfigData {
        ConfigData {
            workspace: self.workspace.path@,
            default_view: self.defaults.view@,
            colors: self.theme.colors@,
            views: view_config_datas(self.views@),
        }
    }
}

/// The sort of a view that names none: `due_date`.
pub fn default_sort_by() -> (r: String)
    ensures
        r@ == "due_date"@,
{
    "due_date".to_owned()
}

/// The view to show first when the settings name none: `All Tasks`.
pub fn default_view() -> (r: String)
    ensures
        r@ == "All Tasks"@,
{
    "All Tasks".to_owned()
}

/// The theme when the settings name none: `dark`.
pub fn default_colors() -> (r: String)
    ensures
        r@ == "dark"@,
{
    "dark".to_owned()
}

impl Default for ViewConfig {
    /// No name and no query, sorted by `due_date`, not grouped.
    fn default() -> (r: Self)
        ensures
            r.name@ == ""@,
            r.query@ == ""@,
            r.sort_by@ == "due_date"@,
            r.group_by@ == ""@,
    {
        proof {
            reveal_strlit("");
        }
        ViewConfig {
            name: String::new(),
            query: String::new(),
            sort_by: default_sort_by(),
            group_by: String::new(),
        }
    }
}

impl Default for DefaultsConfig {
    fn default() -> (r: Self)
        ensures
            r.view@ == "All Tasks"@,
    {
        DefaultsConfig { view: default_view() }
    }
}

impl Default for ThemeConfig {
    fn default() -> (r: Self)
        ensures
            r.colors@ == "dark"@,
    {
        ThemeConfig { colors: default_colors() }
    }
}

/// The text with the quotes around it taken off, if it starts and ends
/// with the same quote (`"` or `'`).
pub open spec fn unquoted(t: Seq<char>) -> Seq<char> {
    if t.len() >= 1 && ((t[0] == '"' && t.last() == '"') || (t[0] == '\'' && t.last() == '\'')) {
        t.subrange(1, t.len() - 1)
    } else {
        t
    }
}

/// `s` without its leading `/`s.
pub open spec fn strip_slashes(s: Seq<char>) -> Seq<char>
    decreases s.len(),
{
    if s.len() > 0 && s[0] == '/' {
        strip_slashes(s.drop_first())
    } else {
        s
    }
}

/// `PathBuf::join` of a relative path: a `/` between the two unless the
/// base is empty or ends with one.
pub open spec fn join_relative(base: Seq<char>, rest: Seq<char>) -> Seq<char> {
    if base.len() > 0 && base.last() != '/' {
        base + seq!['/'] + rest
    } else {
        base + rest
    }
}

/// The vault path that a typed answer names: trimmed, without surrounding
/// quotes, and with a leading `~` read as the home folder (when known).
pub open spec fn expanded_path(input: Seq<char>, home: Option<Seq<char>>) -> Seq<char> {
    let u = unquoted(crate::text::trim(input));
    if u.len() > 0 && u[0] == '~' {
        match home {
            Some(h) => join_relative(h, strip_slashes(u.drop_first())),
            None => u,
        }
    } else {
        u
    }
}

/// A typed answer that is a lone quote char, which has no inside to take.
pub open spec fn lone_quote(input: Seq<char>) -> bool {
    let t = crate::text::trim(input);
    t.len() == 1 && (t[0] == '"' || t[0] == '\'')
}

/// The vault path that a typed answer names (see `expanded_path`).
pub fn expand_workspace_path(input: &str, home: Option<String>) -> (r: String)
    requires
        !lone_quote(input@),
    ensures
        r@ == expanded_path(input@, match home {
            Some(h) => Some(h@),
            None => None,
        }),
{
    let t = crate::text::trim_chars(&crate::text::chars_of(input));
    let quoted = t.len() >= 1 && ((t[0] == '"' && t[t.len() - 1] == '"') || (t[0] == '\''
        && t[t.len() - 1] == '\''));
    let u = if quoted {
        crate::text::copy_range(&t, 1, t.len() - 1)
    } else {
        t
    };
    if u.len() > 0 && u[0] == '~' {
        match home {
            Some(h) => {
                let mut i: usize = 1;
                assert(u@.drop_first() =~= u@.subrange(1, u@.len() as int));
                while i < u.len() && u[i] == '/'
                    invariant
                        1 <= i <= u.len(),
                        strip_slashes(u@.drop_first()) == strip_slashes(
                            u@.subrange(i as int, u@.len() as int),
                        ),
                    decreases u.len() - i,
                {
                    let ghost rest = u@.subrange(i as int, u@.len() as int);
                    assert(rest.drop_first() =~= u@.subrange(i + 1, u@.len() as int));
                    i += 1;
                }
                let rest = crate::text::copy_range(&u, i, u.len());
                let mut out = crate::text::chars_of(h.as_str());
                if out.len() > 0 && out[out.len() - 1] != '/' {
                    out.push('/');
                }
                crate::text::append_chars(&mut out, &rest);
                crate::text::string_of(&out)
            },
            None => crate::text::string_of(&u),
        }
    } else {
        crate::text::string_of(&u)
    }
}

/// Calls `dirs::home_dir` and shows the path as text. Which folder that is
/// depends on the environment and is not stated.
#[verifier::external_body]
pub(crate) fn home_dir() -> Option<String> {
    dirs::home_dir().map(|p| p.to_string_lossy().into_owned())
}

/// The vault path that a typed answer names, with `~` read as the home
/// folder of the environment.
pub fn workspace_path_from(input: &str) -> (r: String)
    requires
        !lone_quote(input@),
    ensures
        exists|h: Option<Seq<char>>| r@ == #[trigger] expanded_path(input@, h),
{
    let home = home_dir();
    expand_workspace_path(input, home)
}

} // verus!
