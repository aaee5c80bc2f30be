use vstd::prelude::*;

verus! {

// ---------------------------------------------------------------------------
// Server configuration: the registry of storage directories and the static
// settings around it. Reading the configuration file happens outside; the
// library receives the parsed values and answers which storage directories
// are available, which one is the default, and which one an identifier
// names -- disabled directories are invisible to all three.
// ---------------------------------------------------------------------------

pub struct ServerConfig {
    pub host: String,
    pub port: u16,
}

pub struct UserConfig {
    pub username: String,
    pub password_hash: String,
    pub email: String,
}

pub struct JwtConfig {
    pub secret_key: String,
    pub expiration_hours: u64,
}

pub struct FilesConfig {
    pub max_file_size: u64,
    pub allowed_extensions: Vec<String>,
    pub blocked_extensions: Vec<String>,
}

pub struct SecurityConfig {
    pub allow_mkdir: bool,
    pub allow_delete: bool,
    pub allow_download: bool,
}

pub struct StorageConfig {
    pub directories: Vec<DirectoryConfig>,
}

/// One registered storage root: its identifier, display data, backend
/// kind, local path when the backend is local, backend-specific settings
/// as key-value pairs, and whether it is switched off.
pub struct DirectoryConfig {
    pub id: String,
    pub name: String,
    pub description: String,
    pub icon: String,
    pub storage_type: String,
    pub path: Option<String>,
    pub config: Option<Vec<(String, String)>>,
    pub disable: bool,
}

/// The mathematical model of one storage directory entry.
pub ghost struct DirectoryModel {
    pub id: Seq<char>,
    pub name: Seq<char>,
    pub description: Seq<char>,
    pub icon: Seq<char>,
    pub storage_type: Seq<char>,
    pub path: Option<Seq<char>>,
    pub config: Option<Seq<(Seq<char>, Seq<char>)>>,
    pub disable: bool,
}

impl View for DirectoryConfig {
    type V = DirectoryModel;

    open spec fn view(&self) -> DirectoryModel {
        DirectoryModel {
            id: self.id@,
            name: self.name@,
            description: self.description@,
            icon: self.icon@,
            storage_type: self.storage_type@,
            path: match self.path {
                Some(p) => Some(p@),
                None => None,
            },
            config: match self.config {
                Some(c) => Some(c.deep_view()),
                None => None,
            },
            disable: self.disable,
        }
    }
}

/// Whether a directory entry is disabled when the configuration leaves the
/// flag out.
pub fn default_disable() -> (r: bool)
    ensures
        r == false,
{
    false
}

pub struct Config {
    pub server: ServerConfig,
    pub user: UserConfig,
    pub jwt: JwtConfig,
    pub files: FilesConfig,
    pub storage: Option<StorageConfig>,
    pub security: SecurityConfig,
}

/// The views of a row of directory entries.
pub open spec fn dirs_view(s: Seq<DirectoryConfig>) -> Seq<DirectoryModel> {
    s.map_values(|d: DirectoryConfig| d@)
}

/// The storage directories a configuration offers: those configured and
/// not disabled, in configuration order.
pub open spec fn spec_enabled_dirs(c: Config) -> Seq<DirectoryModel> {
    match c.storage {
        Some(st) => dirs_view(st.directories@).filter(|d: DirectoryModel| !d.disable),
        None => Seq::empty(),
    }
}

fn clone_pair_vec(v: &Vec<(String, String)>) -> (r: Vec<(String, String)>)
    ensures
        r.deep_view() == v.deep_view(),
{
    let mut r: Vec<(String, String)> = Vec::new();
    let mut i: usize = 0;
    while i < v.len()
        invariant
            i <= v@.len(),
            r@.len() == i,
            forall|j: int|
                0 <= j < i ==> (#[trigger] r@[j]).0@ == v@[j].0@ && r@[j].1@ == v@[j].1@,
        decreases v@.len() - i,
    {
        let pair = (v[i].0.clone(), v[i].1.clone());
        r.push(pair);
        i += 1;
    }
    proof {
        assert forall|j: int| 0 <= j < v@.len() implies #[trigger] r.deep_view()[j]
            == v.deep_view()[j] by {
            assert(r.deep_view()[j] == r@[j].deep_view());
            assert(v.deep_view()[j] == v@[j].deep_view());
        }
        assert(r.deep_view() =~= v.deep_view());
    }
    r
}

impl DirectoryConfig {
    /// A field-for-field copy with the same model.
    fn duplicate(&self) -> (r: DirectoryConfig)
        ensures
            r@ == self@,
    {
        DirectoryConfig {
            id: self.id.clone(),
            name: self.name.clone(),
            description: self.description.clone(),
            icon: self.icon.clone(),
            storage_type: self.storage_type.clone(),
            path: match &self.path {
                Some(p) => Some(p.clone()),
                None => None,
            },
            config: match &self.config {
                Some(c) => Some(clone_pair_vec(c)),
                None => None,
            },
            disable: self.disable,
        }
    }
}

impl Config {
    /// The storage directories on offer: the configured entries that are
    /// not disabled, in configuration order. Without a storage section
    /// there are none.
    pub fn get_storage_directories(&self) -> (r: Vec<DirectoryConfig>)
        ensures
            dirs_view(r@) == spec_enabled_dirs(*self),
    {
        let ghost keep = |d: DirectoryModel| !d.disable;
        let mut out: Vec<DirectoryConfig> = Vec::new();
        match &self.storage {
            None => {
                proof {
                    assert(dirs_view(out@) =~= Seq::<DirectoryModel>::empty());
                }
                out
            },
            Some(st) => {
                let ghost all = dirs_view(st.directories@);
                let mut i: usize = 0;
                proof {
                    reveal_with_fuel(Seq::<_>::filter, 2);
                    assert(all.take(0) =~= Seq::<DirectoryModel>::empty());
                    assert(dirs_view(out@) =~= all.take(0).filter(keep));
                }
                while i < st.directories.len()
                    invariant
                        i <= st.directories@.len(),
                        all == dirs_view(st.directories@),
                        all.len() == st.directories@.len(),
                        keep == (|d: DirectoryModel| !d.disable),
                        dirs_view(out@) == all.take(i as int).filter(keep),
                    decreases st.directories@.len() - i,
                {
                    let ghost pre = out@;
                    let d = &st.directories[i];
                    if !d.disable {
                        out.push(d.duplicate());
                    }
                    i += 1;
                    proof {
                        reveal_with_fuel(Seq::<_>::filter, 2);
                        let t1 = all.take(i as int);
                        assert(t1.drop_last() =~= all.take(i as int - 1));
                        assert(t1.last() == all[i as int - 1]);
                        assert(all[i as int - 1] == st.directories@[i as int - 1]@);
                        if !d.disable {
                            assert(t1.filter(keep) == all.take(i as int - 1).filter(keep).push(
                                all[i as int - 1],
                            ));
                            assert(dirs_view(out@) =~= dirs_view(pre).push(
                                all[i as int - 1],
                            ));
                            assert(dirs_view(out@) =~= t1.filter(keep));
                        } else {
                            assert(t1.filter(keep) == all.take(i as int - 1).filter(keep));
                            assert(dirs_view(out@) =~= t1.filter(keep));
                        }
                    }
                }
                proof {
                    assert(all.take(all.len() as int) =~= all);
                }
                out
            },
        }
    }

    /// The default storage directory: the first one on offer, if any.
    pub fn get_first_directory(&self) -> (r: Option<DirectoryConfig>)
        ensures
            match r {
                Some(d) => spec_enabled_dirs(*self).len() > 0 && d@ == spec_enabled_dirs(*self)[0],
                None => spec_enabled_dirs(*self).len() == 0,
            },
    {
        let mut dirs = self.get_storage_directories();
        if dirs.len() == 0 {
            None
        } else {
            let d = dirs.remove(0);
            Some(d)
        }
    }

    /// The storage directory an identifier names, among those on offer:
    /// the first enabled entry with that identifier, or nothing.
    pub fn get_directory_by_id(&self, id: &str) -> (r: Option<DirectoryConfig>)
        ensures
            match r {
                Some(d) => exists|j: int|
                    {
                        &&& 0 <= j < spec_enabled_dirs(*self).len()
                        &&& d@ == spec_enabled_dirs(*self)[j]
                        &&& (#[trigger] spec_enabled_dirs(*self)[j].id) == id@
                        &&& forall|l: int| 0 <= l < j ==> spec_enabled_dirs(*self)[l].id != id@
                    },
                None => forall|j: int|
                    0 <= j < spec_enabled_dirs(*self).len() ==> (#[trigger] spec_enabled_dirs(
                        *self,
                    )[j].id) != id@,
            },
    {
        let dirs = self.get_storage_directories();
        let target = id.to_owned();
        let mut i: usize = 0;
        while i < dirs.len()
            invariant
                i <= dirs@.len(),
                dirs_view(dirs@) == spec_enabled_dirs(*self),
                target@ == id@,
                forall|l: int| 0 <= l < i ==> spec_enabled_dirs(*self)[l].id != id@,
            decreases dirs@.len() - i,
        {
            if dirs[i].id == target {
                let d = dirs[i].duplicate();
                proof {
                    assert(d@ == dirs_view(dirs@)[i as int]);
                    assert((spec_enabled_dirs(*self)[i as int].id) == id@);
                    assert(forall|l: int| 0 <= l < i ==> spec_enabled_dirs(*self)[l].id != id@);
                }
                return Some(d);
            }
            i += 1;
        }
        None
    }
}

} // verus!
