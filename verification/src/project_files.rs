//! Decisions on the files of a Choreo project: whether a directory holds a
//! Gradle build, and which files of a directory are the saved segments of a
//! trajectory.

use vstd::prelude::*;

verus! {

#[verifier::external_type_specification]
#[verifier::external_body]
pub struct ExRegex(regex::Regex);

#[verifier::external_type_specification]
#[verifier::external_body]
pub struct ExRegexError(regex::Error);

/// Message when no directory is given.
pub open spec fn no_directory_message() -> Seq<char> {
    "Directory does not exist"@
}

/// Whether one of `file_names` is `build.gradle`, or an error when there is
/// no directory to look in. `file_names` lists the readable entries of the
/// directory.
pub fn contains_build_gradle(file_names: Option<&Vec<String>>) -> (r: Result<bool, &'static str>)
    ensures
        file_names is None ==> (r matches Err(e) && e@ == no_directory_message()),
        file_names matches Some(names) ==> (r is Ok && (r->Ok_0 <==> exists|i: int|
            0 <= i < names.len() && #[trigger] names[i]@ == "build.gradle"@)),
{
    match file_names {
        None => Err("Directory does not exist"),
        Some(names) => {
            let target = String::from_str("build.gradle");
            let mut found_build_gradle = false;
            let mut i: usize = 0;
            while i < names.len()
                invariant
                    i <= names.len(),
                    target@ == "build.gradle"@,
                    found_build_gradle == exists|k: int|
                        0 <= k < i && #[trigger] names[k]@ == "build.gradle"@,
                decreases names.len() - i,
            {
                let is_it = names[i] == target;
                found_build_gradle = found_build_gradle || is_it;
                i += 1;
            }
            Ok(found_build_gradle)
        },
    }
}

/// Characters that carry a meaning in a regular expression (the set of
/// `regex_syntax::is_meta_character`).
pub open spec fn is_regex_meta(c: char) -> bool {
    c == '\\' || c == '.' || c == '+' || c == '*' || c == '?' || c == '(' || c == ')' || c == '|'
        || c == '[' || c == ']' || c == '{' || c == '}' || c == '^' || c == '$' || c == '#' || c
        == '&' || c == '-' || c == '~'
}

/// `text` with a backslash put before every character that carries a meaning
/// in a regular expression.
pub open spec fn regex_escaped(text: Seq<char>) -> Seq<char>
    decreases text.len(),
{
    if text.len() == 0 {
        seq![]
    } else {
        regex_escaped(text.drop_last()) + (if is_regex_meta(text.last()) {
            seq!['\\', text.last()]
        } else {
            seq![text.last()]
        })
    }
}

/// `regex::escape`: the crate's source walks the characters of `text` and
/// puts a backslash before each one for which `is_meta_character` holds.
#[verifier::external_body]
fn regex_escape(text: &str) -> (escaped: String)
    ensures
        escaped@ == regex_escaped(text@),
{
    regex::escape(text)
}

/// Whether the regular expression `pattern` matches somewhere in `haystack`
/// (what `regex::Regex::is_match` answers).
pub uninterp spec fn regex_finds(pattern: Seq<char>, haystack: Seq<char>) -> bool;

/// The regular expression whose matches are the saved segments of the
/// trajectory `traj_name`: the escaped name, a dot, digits, and `.traj`.
pub open spec fn segment_pattern(traj_name: Seq<char>) -> Seq<char> {
    regex_escaped(traj_name) + "\\.\\d+\\.traj"@
}

/// The pattern of the saved segments of the trajectory `traj_name`.
pub fn traj_segment_pattern(traj_name: &str) -> (pattern: String)
    ensures
        pattern@ == segment_pattern(traj_name@),
{
    regex_escape(traj_name).concat("\\.\\d+\\.traj")
}

/// Recognises the saved segments of one trajectory. Its only constructor,
/// `compile_matcher`, compiles `re` from `pattern` and stores both.
pub struct SegmentMatcher {
    pattern: String,
    re: regex::Regex,
}

impl View for SegmentMatcher {
    type V = Seq<char>;

    /// The pattern the matcher was compiled from.
    closed spec fn view(&self) -> Seq<char> {
        self.pattern@
    }
}

/// Message for a path that is not a directory.
pub open spec fn not_a_directory_message(dir: Seq<char>) -> Seq<char> {
    dir + " was not a directory"@
}

/// Message for a trajectory name from which no pattern could be compiled.
pub open spec fn invalid_name_message(traj_name: Seq<char>) -> Seq<char> {
    traj_name + " was an invalid trajectory name"@
}

/// `regex::Regex::new` on `pattern`, kept together with the pattern it was
/// compiled from: the matcher's view is `pattern`. Nothing is stated of when
/// compiling fails: besides a pattern that does not parse, it fails when
/// the compiled program exceeds the crate's size limit, which counts bytes
/// of heap memory and so depends on the machine's pointer width, not on the
/// pattern alone.
#[verifier::external_body]
fn compile_matcher(pattern: String) -> (r: Result<SegmentMatcher, regex::Error>)
    ensures
        r matches Ok(m) ==> m@ == pattern@,
{
    match regex::Regex::new(&pattern) {
        Ok(re) => Ok(SegmentMatcher { pattern, re }),
        Err(e) => Err(e),
    }
}

impl SegmentMatcher {
    /// `regex::Regex::is_match` on the compiled `self.re`, which was
    /// compiled from the pattern that `self@` gives.
    #[verifier::external_body]
    fn regex_is_match(&self, haystack: &str) -> (found: bool)
        ensures
            found == regex_finds(self@, haystack@),
    {
        self.re.is_match(haystack)
    }

    /// Whether a directory entry is a saved segment of the trajectory: a
    /// file whose name (when it is valid text) the pattern matches.
    pub fn is_traj_segment(&self, file_name: Option<&str>, is_file: bool) -> (selected: bool)
        ensures
            selected == (is_file && file_name is Some && regex_finds(self@, file_name.unwrap()@)),
    {
        if !is_file {
            return false;
        }
        match file_name {
            Some(name) => self.regex_is_match(name),
            None => false,
        }
    }
}

/// What compiling the segment pattern of `traj_name` gave, as the result of
/// the start of a clean-up: the matcher itself, or the invalid-name message.
pub fn matcher_from_compiled(traj_name: &str, compiled: Result<SegmentMatcher, regex::Error>) -> (r:
    Result<SegmentMatcher, String>)
    ensures
        compiled matches Ok(m) ==> r == Ok::<SegmentMatcher, String>(m),
        compiled is Err ==> (r matches Err(e) && e@ == invalid_name_message(traj_name@)),
{
    match compiled {
        Ok(m) => Ok(m),
        Err(_) => Err(String::from_str(traj_name).concat(" was an invalid trajectory name")),
    }
}

/// The start of clearing the saved segments of the trajectory `traj_name`
/// out of `dir`: an error when `dir` is no directory, else the matcher of
/// the segments, or an error when its pattern does not compile.
pub fn traj_segment_matcher(dir: &str, dir_is_dir: bool, traj_name: &str) -> (r: Result<
    SegmentMatcher,
    String,
>)
    ensures
        !dir_is_dir ==> (r matches Err(e) && e@ == not_a_directory_message(dir@)),
        dir_is_dir ==> match r {
            Ok(m) => m@ == segment_pattern(traj_name@),
            Err(e) => e@ == invalid_name_message(traj_name@),
        },
{
    if !dir_is_dir {
        return Err(String::from_str(dir).concat(" was not a directory"));
    }
    let pattern = traj_segment_pattern(traj_name);
    matcher_from_compiled(traj_name, compile_matcher(pattern))
}

} // verus!
