//! Storage capabilities: the contract a configuration store and a theme
//! store must meet, and in-memory implementations of both. The in-memory
//! stores model the backing file as plain data, which lets the whole
//! backup-first, rollback-safe persistence pipeline be verified; a
//! file-backed implementation is one more variant behind the same trait.

use crate::config::{hosts_view, spec_lines, spec_parse, spec_serialize, SshConfigParser};
use crate::host::SshHost;
use crate::theme::{default_preference, Theme, ThemeCatalog, ThemePreference};
use vstd::prelude::*;
use vstd::string::StringExecFns;

verus! {

/// The mathematical value of a stored text: what the specification-level
/// model functions of the storage traits speak about.
pub type TextModel = Seq<char>;

/// The mathematical values of a list of stored texts.
pub type TextModelList = Seq<Seq<char>>;

/// Where host configurations are read from and written to.
///
/// `stored()` is the content of the backing store (nothing when no store
/// exists yet), and `backups()` the contents of the backups taken so far,
/// oldest first. Saving is backup-first: a successful save of a store that
/// existed leaves its prior content as the newest backup, and a failed save
/// leaves both the store and the backups exactly as they were.
pub trait SshRepository: Sized {
    /// The content of the backing store, when one exists.
    spec fn stored(&self) -> Option<TextModel>;

    /// The contents of the backups taken so far, oldest first.
    spec fn backups(&self) -> TextModelList;

    /// Where the store lives, as shown to the operator.
    spec fn path_view(&self) -> TextModel;

    /// Read and parse the whole store; a missing store reads as an empty
    /// configuration.
    fn load_all(&self) -> (r: (String, Vec<SshHost>))
        ensures
            ({
                let text = match self.stored() {
                    Some(t) => t,
                    None => Seq::<char>::empty(),
                };
                r.0@ == spec_parse(text).0 && hosts_view(r.1@) == spec_parse(text).1
            }),
    ;

    /// Overwrite the store with the serialized configuration, backup
    /// first. On success the store holds exactly the serialized text and
    /// the prior content, when there was one, has become the newest
    /// backup; on failure both are unchanged.
    fn save_all(&mut self, preamble: &str, hosts: &Vec<SshHost>) -> (r: Result<String, String>)
        ensures
            r is Ok ==> final(self).stored() == Some(
                spec_serialize(preamble@, hosts_view(hosts@)),
            ),
            r is Ok ==> final(self).backups() == match old(self).stored() {
                Some(c) => old(self).backups().push(c),
                None => old(self).backups(),
            },
            r is Err ==> final(self).stored() == old(self).stored() && final(self).backups()
                == old(self).backups(),
            final(self).path_view() == old(self).path_view(),
    ;

    /// The path of the backing store.
    fn config_path(&self) -> (r: String)
        ensures
            r@ == self.path_view(),
    ;
}

/// Where theme preferences are read from and written to, and the theme
/// catalog. Loading falls back to the default silently; saving is best
/// effort and may leave the old preference in place.
pub trait ThemeRepository: Sized {
    /// The preference held by the store, when one is saved and readable.
    spec fn stored_preference(&self) -> Option<ThemePreference>;

    /// The saved preference, or the default when none is saved.
    fn load_preference(&self) -> (r: ThemePreference)
        ensures
            r == match self.stored_preference() {
                Some(p) => p,
                None => default_preference(),
            },
    ;

    /// Save the preference; best effort, so either it is stored afterwards
    /// or the store is unchanged.
    fn save_preference(&mut self, preference: &ThemePreference)
        ensures
            final(self).stored_preference() == Some(*preference) || final(self).stored_preference()
                == old(self).stored_preference(),
    ;

    /// The ordered theme catalog; never empty.
    fn catalog(&self) -> (r: Vec<Theme>)
        ensures
            r@.len() > 0,
    ;
}

/// An in-memory configuration store: the backing file held as plain data.
/// It is the verified model of the persistence pipeline, and doubles as a
/// test stand-in whose failures can be forced through `fail_saves`.
pub struct MemorySshRepository {
    pub path: String,
    pub file: Option<String>,
    pub backup_log: Vec<String>,
    pub fail_saves: bool,
}

impl MemorySshRepository {
    /// A store with no backing file yet.
    pub fn new() -> (r: Self)
        ensures
            r.stored() is None,
            r.backups().len() == 0,
            r.fail_saves == false,
    {
        MemorySshRepository {
            path: String::from_str("ssh_config"),
            file: None,
            backup_log: Vec::new(),
            fail_saves: false,
        }
    }

    /// A store whose backing file already holds `content`.
    pub fn with_content(content: String) -> (r: Self)
        ensures
            r.stored() == Some(content@),
            r.backups().len() == 0,
            r.fail_saves == false,
    {
        MemorySshRepository {
            path: String::from_str("ssh_config"),
            file: Some(content),
            backup_log: Vec::new(),
            fail_saves: false,
        }
    }

    /// Make every following save fail, as an unwritable target would.
    pub fn set_fail_saves(&mut self, fail: bool)
        ensures
            *final(self) == (MemorySshRepository { fail_saves: fail, ..*old(self) }),
    {
        self.fail_saves = fail;
    }

    /// The content of the newest backup, when there is one.
    pub fn last_backup(&self) -> (r: Option<&String>)
        ensures
            match r {
                Some(c) => self.backups().len() > 0 && c@ == self.backups().last(),
                None => self.backups().len() == 0,
            },
    {
        let n = self.backup_log.len();
        if n == 0 {
            None
        } else {
            Some(&self.backup_log[n - 1])
        }
    }
}

impl SshRepository for MemorySshRepository {
    open spec fn stored(&self) -> Option<TextModel> {
        match self.file {
            Some(s) => Some(s@),
            None => None,
        }
    }

    open spec fn backups(&self) -> TextModelList {
        self.backup_log@.map_values(|s: String| s@)
    }

    open spec fn path_view(&self) -> TextModel {
        self.path@
    }

    fn load_all(&self) -> (r: (String, Vec<SshHost>)) {
        match &self.file {
            Some(content) => SshConfigParser::parse(content.as_str()),
            None => {
                let r = (String::new(), Vec::<SshHost>::new());
                proof {
                    let text = Seq::<char>::empty();
                    assert(spec_lines(text) =~= Seq::<Seq<char>>::empty());
                    assert(hosts_view(r.1@) =~= Seq::<crate::host::HostView>::empty());
                    assert(spec_parse(text).1 =~= Seq::<crate::host::HostView>::empty());
                }
                r
            },
        }
    }

    fn save_all(&mut self, preamble: &str, hosts: &Vec<SshHost>) -> (r: Result<String, String>) {
        if self.fail_saves {
            return Err(String::from_str("write failed"));
        }
        let prior = self.file.take();
        match prior {
            Some(c) => {
                let ghost cv = c@;
                self.backup_log.push(c);
                proof {
                    assert(self.backups() =~= old(self).backups().push(cv));
                }
            },
            None => (),
        }
        let content = crate::config::serialize(preamble, hosts);
        self.file = Some(content);
        Ok(self.path.clone())
    }

    fn config_path(&self) -> (r: String) {
        self.path.clone()
    }
}

/// An in-memory theme store.
pub struct MemoryThemeRepository {
    pub preference: Option<ThemePreference>,
}

impl MemoryThemeRepository {
    pub fn new() -> (r: Self)
        ensures
            r.stored_preference() is None,
    {
        MemoryThemeRepository { preference: None }
    }
}

impl ThemeRepository for MemoryThemeRepository {
    open spec fn stored_preference(&self) -> Option<ThemePreference> {
        self.preference
    }

    fn load_preference(&self) -> (r: ThemePreference) {
        match &self.preference {
            Some(p) => *p,
            None => ThemePreference::default(),
        }
    }

    fn save_preference(&mut self, preference: &ThemePreference) {
        self.preference = Some(*preference);
    }

    fn catalog(&self) -> (r: Vec<Theme>) {
        ThemeCatalog::all()
    }
}

} // verus!
