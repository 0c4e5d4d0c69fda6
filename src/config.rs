use vstd::prelude::*;

verus! {

/// One cursor of a theme: its name, the other names it answers to, and the animated cursor
/// file it is built from.
#[derive(Debug, Clone)]
pub struct Cursor {
    name: String,
    aliases: Vec<String>,
    input: String,
}

/// The texts of a vector of strings.
pub open spec fn texts(v: Seq<String>) -> Seq<Seq<char>> {
    v.map_values(|s: String| s@)
}

impl Cursor {
    pub closed spec fn name_spec(&self) -> Seq<char> {
        self.name@
    }

    pub closed spec fn aliases_spec(&self) -> Seq<Seq<char>> {
        texts(self.aliases@)
    }

    pub closed spec fn input_spec(&self) -> Seq<char> {
        self.input@
    }

    pub fn new(name: String, aliases: Vec<String>, input: String) -> (r: Self)
        ensures
            r.name_spec() == name@,
            r.aliases_spec() == texts(aliases@),
            r.input_spec() == input@,
    {
        Cursor { name, aliases, input }
    }

    pub fn name(&self) -> (r: &str)
        ensures
            r@ == self.name_spec(),
    {
        self.name.as_str()
    }

    pub fn aliases(&self) -> (r: &[String])
        ensures
            texts(r@) == self.aliases_spec(),
    {
        self.aliases.as_slice()
    }

    /// The path of the animated cursor file.
    pub fn input(&self) -> (r: &str)
        ensures
            r@ == self.input_spec(),
    {
        self.input.as_str()
    }
}

/// A theme: its name and its cursors.
#[derive(Debug, Clone)]
pub struct Config {
    theme: String,
    cursors: Vec<Cursor>,
}

impl Config {
    pub closed spec fn theme_spec(&self) -> Seq<char> {
        self.theme@
    }

    pub closed spec fn cursors_spec(&self) -> Seq<Cursor> {
        self.cursors@
    }

    pub fn new(theme: String, cursors: Vec<Cursor>) -> (r: Self)
        ensures
            r.theme_spec() == theme@,
            r.cursors_spec() == cursors@,
    {
        Config { theme, cursors }
    }

    pub fn theme(&self) -> (r: &str)
        ensures
            r@ == self.theme_spec(),
    {
        self.theme.as_str()
    }

    pub fn cursors(&self) -> (r: &[Cursor])
        ensures
            r@ == self.cursors_spec(),
    {
        self.cursors.as_slice()
    }
}

} // verus!
