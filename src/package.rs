use vstd::prelude::*;

verus! {

/// The path that `Path::join` makes of `base` and `part`.
pub uninterp spec fn path_join(base: Seq<char>, part: Seq<char>) -> Seq<char>;

/// Relies on `std::path::Path::join`: `part` appended to `base` with a separator (or `part`
/// itself when it is absolute); the result depends on the two texts alone. Both inputs are
/// UTF-8, so the lossy conversion back to a string changes nothing.
#[verifier::external_body]
fn join(base: &str, part: &str) -> (r: String)
    ensures
        r@ == path_join(base@, part@),
{
    std::path::Path::new(base).join(part).to_string_lossy().into_owned()
}

/// The theme directory inside a build directory.
#[derive(Debug, Clone)]
pub struct Theme {
    path: String,
}

impl Theme {
    pub closed spec fn dir(&self) -> Seq<char> {
        self.path@
    }

    pub fn new(path: String) -> (r: Self)
        ensures
            r.dir() == path@,
    {
        Theme { path }
    }

    pub fn as_path(&self) -> (r: &str)
        ensures
            r@ == self.dir(),
    {
        self.path.as_str()
    }

    /// Where the theme's cursor files go.
    pub fn cursors(&self) -> (r: String)
        ensures
            r@ == path_join(self.dir(), "cursors"@),
    {
        join(self.path.as_str(), "cursors")
    }

    /// The theme's description file.
    pub fn index_theme(&self) -> (r: String)
        ensures
            r@ == path_join(self.dir(), "index.theme"@),
    {
        join(self.path.as_str(), "index.theme")
    }
}

/// The build directory of a package.
#[derive(Debug, Clone)]
pub struct Build {
    path: String,
    theme: Theme,
}

impl Build {
    pub closed spec fn dir(&self) -> Seq<char> {
        self.path@
    }

    pub closed spec fn theme_dir(&self) -> Seq<char> {
        self.theme.dir()
    }

    pub fn new(path: String) -> (r: Self)
        ensures
            r.dir() == path@,
            r.theme_dir() == path_join(path@, "theme"@),
    {
        let theme = Theme::new(join(path.as_str(), "theme"));
        Build { path, theme }
    }

    pub fn as_path(&self) -> (r: &str)
        ensures
            r@ == self.dir(),
    {
        self.path.as_str()
    }

    /// Where the frames extracted from the cursors go.
    pub fn frames(&self) -> (r: String)
        ensures
            r@ == path_join(self.dir(), "frames"@),
    {
        join(self.path.as_str(), "frames")
    }

    pub fn theme(&self) -> (r: &Theme)
        ensures
            r.dir() == self.theme_dir(),
    {
        &self.theme
    }
}

/// A theme package: its directory, holding `Cursor.toml` and the build directory.
#[derive(Debug, Clone)]
pub struct Package {
    path: String,
    build: Build,
}

impl Package {
    pub closed spec fn root(&self) -> Seq<char> {
        self.path@
    }

    pub closed spec fn build_dir(&self) -> Seq<char> {
        self.build.dir()
    }

    pub closed spec fn theme_dir(&self) -> Seq<char> {
        self.build.theme_dir()
    }

    pub fn new(path: String) -> (r: Self)
        ensures
            r.root() == path@,
            r.build_dir() == path_join(path@, "build"@),
            r.theme_dir() == path_join(path_join(path@, "build"@), "theme"@),
    {
        let build = Build::new(join(path.as_str(), "build"));
        Package { path, build }
    }

    /// The package's configuration file.
    pub fn config(&self) -> (r: String)
        ensures
            r@ == path_join(self.root(), "Cursor.toml"@),
    {
        join(self.path.as_str(), "Cursor.toml")
    }

    pub fn build(&self) -> (r: &Build)
        ensures
            r.dir() == self.build_dir(),
            r.theme_dir() == self.theme_dir(),
    {
        &self.build
    }
}

} // verus!
