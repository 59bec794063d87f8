//! The command line: which application a mnemonic selects.
use vstd::prelude::*;
use vstd::hash_map::StringHashMap;
use vstd::utf8::is_ascii_chars;
use crate::consts;
use crate::text::ascii_upper;

verus! {

/// What `str::to_uppercase` gives for a string (full Unicode upper case).
pub uninterp spec fn unicode_uppercase(s: Seq<char>) -> Seq<char>;

/// What `str::to_uppercase` gives: on ASCII text the ASCII upper case;
/// otherwise as `unicode_uppercase` names it.
pub open spec fn uppercase_of(s: Seq<char>) -> Seq<char> {
    if is_ascii_chars(s) {
        ascii_upper(s)
    } else {
        unicode_uppercase(s)
    }
}

/// Wraps `str::to_uppercase`. The result is named by `unicode_uppercase`;
/// on ASCII text it is the ASCII upper case, which std's documentation and
/// the Unicode case tables give.
#[verifier::external_body]
fn to_uppercase(s: &str) -> (r: String)
    ensures
        r@ == unicode_uppercase(s@),
        is_ascii_chars(s@) ==> r@ == ascii_upper(s@),
{
    s.to_uppercase()
}

/// The entry point of an application, which the program runs with the
/// command-line arguments.
#[derive(Clone, Copy, Debug, PartialEq, Eq, Structural)]
pub enum AppEntry {
    /// The Hack assembler.
    Assembler,
}

/// What the command line asks for.
#[derive(Clone, Copy, Debug, PartialEq, Eq, Structural)]
pub enum Dispatch {
    /// Fewer than two arguments: nothing to do.
    Nothing,
    /// Run this application with the arguments.
    Run(AppEntry),
    /// The mnemonic names no application.
    Unrecognized,
}

/// An application: a title, a help text and its entry point.
pub struct Application {
    pub title: String,
    pub help_text: String,
    pub entry: AppEntry,
}

impl Application {
    /// An application with the given title, help text and entry point.
    pub fn new(title: String, help_text: String, entry: AppEntry) -> (r: Self)
        ensures
            r.title@ == title@,
            r.help_text@ == help_text@,
            r.entry == entry,
    {
        Application { title, help_text, entry }
    }

    /// The entry point to run with the arguments.
    pub fn exec_app(&self) -> (r: AppEntry)
        ensures
            r == self.entry,
    {
        self.entry
    }
}

/// The title of the assembler application.
pub const ASSEMBLER_TITLE: &'static str = "Hack Assembler";

/// The help text of the assembler application.
pub const ASSEMBLER_DESCRIPTION: &'static str = "This takes in a file with Hack Assembly language and converts it directly into binary format.";

/// The applications, by mnemonic.
pub struct ApplicationMap {
    app_list: StringHashMap<Application>,
}

impl ApplicationMap {
    /// The applications by mnemonic.
    pub closed spec fn apps(&self) -> Map<Seq<char>, Application> {
        self.app_list@
    }

    /// An empty map.
    pub fn new() -> (r: Self)
        ensures
            r.apps() == Map::<Seq<char>, Application>::empty(),
    {
        ApplicationMap { app_list: StringHashMap::new() }
    }

    /// Adds the assembler under the mnemonic `ASM`.
    pub fn add_standard_apps(&mut self)
        ensures
            final(self).apps().dom() == old(self).apps().dom().insert(consts::ASSEMBLER_APP@),
            forall|k: Seq<char>|
                k != consts::ASSEMBLER_APP@ && #[trigger] old(self).apps().contains_key(k)
                    ==> final(self).apps()[k] == old(self).apps()[k],
            final(self).apps()[consts::ASSEMBLER_APP@].title@ == ASSEMBLER_TITLE@,
            final(self).apps()[consts::ASSEMBLER_APP@].help_text@ == ASSEMBLER_DESCRIPTION@,
            final(self).apps()[consts::ASSEMBLER_APP@].entry == AppEntry::Assembler,
    {
        let assembler_title = String::from_str(ASSEMBLER_TITLE);
        let assembler_help = String::from_str(ASSEMBLER_DESCRIPTION);
        let assembler_app = Application::new(assembler_title, assembler_help, AppEntry::Assembler);
        self.add_app(String::from_str(consts::ASSEMBLER_APP), assembler_app);
    }

    /// Adds `app` under `key`, in place of any application there.
    pub fn add_app(&mut self, key: String, app: Application)
        ensures
            final(self).apps() == old(self).apps().insert(key@, app),
    {
        self.app_list.insert(key, app);
    }

    /// The entry point of the application under `mnem`, if there is one.
    pub fn execute_app_from_mnem(self, mnem: String) -> (r: Option<AppEntry>)
        ensures
            r == (if self.apps().contains_key(mnem@) {
                Some(self.apps()[mnem@].entry)
            } else {
                None
            }),
    {
        match self.app_list.get(mnem.as_str()) {
            Some(app) => Some(app.exec_app()),
            None => None,
        }
    }
}

/// What the command line asks for: with at least two arguments, the second
/// (upper-cased) selects an application; `ASM` is the assembler.
pub fn interpret_args(arg_string: &Vec<String>) -> (r: Dispatch)
    ensures
        arg_string@.len() < 2 ==> r == Dispatch::Nothing,
        arg_string@.len() >= 2 ==> r == (if uppercase_of(arg_string@[1]@)
            == consts::ASSEMBLER_APP@ {
            Dispatch::Run(AppEntry::Assembler)
        } else {
            Dispatch::Unrecognized
        }),
{
    if arg_string.len() < 2 {
        return Dispatch::Nothing;
    }
    let app_mnemonic = to_uppercase(arg_string[1].as_str());
    let mut app_map = ApplicationMap::new();
    app_map.add_standard_apps();
    match app_map.execute_app_from_mnem(app_mnemonic) {
        Some(entry) => Dispatch::Run(entry),
        None => Dispatch::Unrecognized,
    }
}

} // verus!
