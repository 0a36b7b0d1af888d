//! Where a file of the home directory lives in the repository.

use crate::path::{
    dot, dotdot, is_plain, lemma_extend_plain, lemma_extend_wf, FilePath, PathView,
};
use vstd::prelude::*;
use vstd::string::*;

verus! {

/// The name of the repository directory inside the home directory.
pub open spec fn repo_dir_name() -> Seq<char> {
    ".dotfiles"@
}

/// Why a path could not be resolved.
#[derive(Debug, Clone, Copy, PartialEq, Eq, Structural)]
pub enum PathError {
    /// The path is the home directory itself or lies outside it.
    OutsideHome,
}

/// Why a configuration could not be made.
#[derive(Debug, Clone, Copy, PartialEq, Eq, Structural)]
pub enum ConfigError {
    /// The home directory is not an absolute path.
    HomeNotAbsolute,
}

/// What a configuration holds.
pub struct ConfigView {
    pub home_dir: PathView,
    pub dotfiles_dir: PathView,
    pub current_dir: PathView,
}

impl ConfigView {
    /// The paths are normalised, the home directory is absolute, and the
    /// repository is the directory `.dotfiles` in it.
    pub open spec fn wf(self) -> bool {
        &&& self.home_dir.wf()
        &&& self.dotfiles_dir.wf()
        &&& self.current_dir.wf()
        &&& self.home_dir.absolute
        &&& self.dotfiles_dir == self.home_dir.child(repo_dir_name())
    }
}

/// The directories that every resolution starts from, fixed once.
#[derive(Debug, PartialEq, Eq)]
pub struct Config {
    home_dir: FilePath,
    dotfiles_dir: FilePath,
    current_dir: FilePath,
}

impl View for Config {
    type V = ConfigView;

    closed spec fn view(&self) -> ConfigView {
        ConfigView {
            home_dir: self.home_dir@,
            dotfiles_dir: self.dotfiles_dir@,
            current_dir: self.current_dir@,
        }
    }
}

/// The absolute path that `file` denotes in the current directory.
pub open spec fn full_path_spec(config: ConfigView, file: PathView) -> PathView {
    config.current_dir.join(file)
}

/// The path of `file` relative to the home directory, where it lies strictly
/// below the home directory.
pub open spec fn relative_dest_spec(config: ConfigView, file: PathView) -> Result<
    PathView,
    PathError,
> {
    let full = full_path_spec(config, file);
    if full.is_strictly_under(config.home_dir) {
        Ok(full.strip_prefix(config.home_dir).unwrap())
    } else {
        Err(PathError::OutsideHome)
    }
}

/// The repository-side path of `file`: its path relative to the home
/// directory, taken from the repository directory.
pub open spec fn dest_spec(config: ConfigView, file: PathView) -> Result<PathView, PathError> {
    match relative_dest_spec(config, file) {
        Ok(rel) => Ok(config.dotfiles_dir.join(rel)),
        Err(e) => Err(e),
    }
}

/// The repository directory name is a plain name.
pub proof fn lemma_repo_dir_name_plain()
    ensures
        is_plain(repo_dir_name()),
        repo_dir_name().len() == 9,
{
    reveal_strlit(".dotfiles");
    let s = repo_dir_name();
    assert(s.len() == 9);
    assert(s[0] == '.' && s[1] == 'd' && s[2] == 'o' && s[3] == 't' && s[4] == 'f' && s[5] == 'i'
        && s[6] == 'l' && s[7] == 'e' && s[8] == 's');
    assert(dot().len() == 1);
    assert(dotdot().len() == 2);
}

/// The components of a normalised absolute path are plain names.
pub proof fn lemma_absolute_parts_plain(p: PathView)
    requires
        p.wf(),
        p.absolute,
    ensures
        forall|i: int| 0 <= i < p.parts.len() ==> is_plain(#[trigger] p.parts[i]),
{
}

/// A path strictly below the home directory resolves to the repository
/// directory followed by the components that lead from the home directory to
/// the path, and that place lies strictly below the repository directory;
/// any other path does not resolve.
pub proof fn law_resolve(config: ConfigView, file: PathView)
    requires
        config.wf(),
        file.wf(),
    ensures
        ({
            let full = full_path_spec(config, file);
            let home = config.home_dir;
            if full.is_strictly_under(home) {
                let rest = full.parts.skip(home.parts.len() as int);
                &&& relative_dest_spec(config, file) == Ok::<PathView, PathError>(
                    PathView { absolute: false, parts: rest },
                )
                &&& dest_spec(config, file) == Ok::<PathView, PathError>(
                    PathView { absolute: true, parts: config.dotfiles_dir.parts + rest },
                )
                &&& dest_spec(config, file).unwrap().is_strictly_under(config.dotfiles_dir)
                &&& dest_spec(config, file).unwrap().strip_prefix(config.dotfiles_dir)
                    == relative_dest_spec(config, file).ok()
                &&& dest_spec(config, file).unwrap().wf()
            } else {
                &&& relative_dest_spec(config, file) == Err::<PathView, PathError>(
                    PathError::OutsideHome,
                )
                &&& dest_spec(config, file) == Err::<PathView, PathError>(PathError::OutsideHome)
            }
        }),
{
    let full = full_path_spec(config, file);
    let home = config.home_dir;
    if full.is_strictly_under(home) {
        let rest = full.parts.skip(home.parts.len() as int);
        let repo = config.dotfiles_dir;
        lemma_full_path_wf(config, file);
        lemma_absolute_parts_plain(full);
        assert forall|i: int| 0 <= i < rest.len() implies is_plain(#[trigger] rest[i]) by {
            assert(rest[i] == full.parts[home.parts.len() + i]);
        }
        lemma_extend_plain(true, repo.parts, rest);
        let dest = PathView { absolute: true, parts: repo.parts + rest };
        assert(repo.parts.is_prefix_of(dest.parts)) by {
            assert(dest.parts.subrange(0, repo.parts.len() as int) =~= repo.parts);
        }
        assert(dest.parts.skip(repo.parts.len() as int) =~= rest);
        lemma_extend_wf(true, repo.parts, rest);
    }
}

/// The full path of a normalised file is normalised.
pub proof fn lemma_full_path_wf(config: ConfigView, file: PathView)
    requires
        config.wf(),
        file.wf(),
    ensures
        full_path_spec(config, file).wf(),
{
    if !file.absolute {
        lemma_extend_wf(config.current_dir.absolute, config.current_dir.parts, file.parts);
    }
}

impl Config {
    /// Every configuration is well formed.
    #[verifier::type_invariant]
    pub open spec fn inv(&self) -> bool {
        self@.wf()
    }

    /// A configuration for the home directory `home_dir` and the working
    /// directory `current_dir`. The home directory has to be absolute.
    pub fn new(home_dir: FilePath, current_dir: FilePath) -> (r: Result<Config, ConfigError>)
        ensures
            match r {
                Ok(config) => {
                    &&& home_dir@.absolute
                    &&& config@.home_dir == home_dir@
                    &&& config@.current_dir == current_dir@
                    &&& config@.dotfiles_dir == home_dir@.child(repo_dir_name())
                    &&& config@.wf()
                },
                Err(e) => e == ConfigError::HomeNotAbsolute && !home_dir@.absolute,
            },
    {
        if !home_dir.is_absolute() {
            return Err(ConfigError::HomeNotAbsolute);
        }
        let dotfiles_dir = get_dotfiles_dir(&home_dir);
        proof {
            use_type_invariant(&home_dir);
            use_type_invariant(&current_dir);
        }
        Ok(Config { home_dir, dotfiles_dir, current_dir })
    }

    /// The home directory.
    pub fn home_dir(&self) -> (r: &FilePath)
        ensures
            r@ == self@.home_dir,
    {
        &self.home_dir
    }

    /// The repository directory.
    pub fn dotfiles_dir(&self) -> (r: &FilePath)
        ensures
            r@ == self@.dotfiles_dir,
    {
        &self.dotfiles_dir
    }

    /// The working directory.
    pub fn current_dir(&self) -> (r: &FilePath)
        ensures
            r@ == self@.current_dir,
    {
        &self.current_dir
    }

}

/// The repository directory of a home directory: the directory `.dotfiles`
/// in it.
pub fn get_dotfiles_dir(home_dir: &FilePath) -> (r: FilePath)
    ensures
        r@ == home_dir@.child(repo_dir_name()),
        r@.wf(),
{
    proof {
        lemma_repo_dir_name_plain();
    }
    home_dir.child(".dotfiles")
}

/// The full path of `file`: `file` taken from the working directory.
pub fn get_full_path(config: &Config, file: &FilePath) -> (r: FilePath)
    ensures
        r@ == full_path_spec(config@, file@),
        r@.wf(),
{
    config.current_dir.join(file)
}

/// The path of `file` relative to the home directory. A file that is not
/// strictly below the home directory is refused.
pub fn get_relative_dest_path(config: &Config, file: &FilePath) -> (r: Result<FilePath, PathError>)
    ensures
        match r {
            Ok(rel) => relative_dest_spec(config@, file@) == Ok::<PathView, PathError>(rel@)
                && rel@.wf(),
            Err(e) => relative_dest_spec(config@, file@) == Err::<PathView, PathError>(e),
        },
{
    let full = get_full_path(config, file);
    if full.len() <= config.home_dir.len() {
        return Err(PathError::OutsideHome);
    }
    match full.strip_prefix(&config.home_dir) {
        Some(rel) => Ok(rel),
        None => Err(PathError::OutsideHome),
    }
}

/// The repository-side path of `file`: the repository directory followed by
/// the path of `file` relative to the home directory. A file that is not
/// strictly below the home directory is refused.
pub fn get_dest_path(config: &Config, file: &FilePath) -> (r: Result<FilePath, PathError>)
    ensures
        match r {
            Ok(dest) => dest_spec(config@, file@) == Ok::<PathView, PathError>(dest@)
                && dest@.wf(),
            Err(e) => dest_spec(config@, file@) == Err::<PathView, PathError>(e),
        },
{
    match get_relative_dest_path(config, file) {
        Ok(rel) => Ok(config.dotfiles_dir.join(&rel)),
        Err(e) => Err(e),
    }
}

} // verus!
