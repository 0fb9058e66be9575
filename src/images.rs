use vstd::prelude::*;

use crate::reconcile::BuiltImages;
use crate::qm::{failure_message, Tool, check_exit};
use crate::text::{decimal_of, decimal_text, joined, text, views_of};
use crate::types::AppError;

verus! {

/// Where the per-commit workspaces live.
pub const BASE_REPO_PATH: &'static str = "/tmp/proxnix/repos";

/// The name of the disk image beneath each build's out-link.
pub const IMAGE_FILE: &'static str = "nixos.qcow2";

/// The places where a private SSH key is looked for, in order.
pub const SSH_KEY_ED25519: &'static str = "/root/.ssh/id_ed25519";
pub const SSH_KEY_RSA: &'static str = "/root/.ssh/id_rsa";
pub const SSH_KEY_ECDSA: &'static str = "/root/.ssh/id_ecdsa";

/// The workspace of one commit: `<base>/<commit>`.
pub fn workspace_path(commit_hash: &str) -> (r: String)
    ensures
        r@ == BASE_REPO_PATH@ + "/"@ + commit_hash@,
{
    let mut r = text(BASE_REPO_PATH);
    r.append("/");
    r.append(commit_hash);
    r
}

/// The out-link of the build of one configuration: `<repo>/<name>/result`.
pub fn out_link(repo_path: &str, config_name: &str) -> (r: String)
    ensures
        r@ == repo_path@ + "/"@ + config_name@ + "/result"@,
{
    let mut r = text(repo_path);
    r.append("/");
    r.append(config_name);
    r.append("/result");
    r
}

/// The disk image beneath an out-link.
pub fn image_path(result_link: &str) -> (r: String)
    ensures
        r@ == result_link@ + "/"@ + IMAGE_FILE@,
{
    let mut r = text(result_link);
    r.append("/");
    r.append(IMAGE_FILE);
    r
}

/// The arguments that build the disk image of one configuration and place
/// its out-link.
pub fn nix_build_args(config_name: &str, result_link: &str) -> (r: Vec<String>)
    ensures
        views_of(r@) == seq![
            "build"@,
            ".#nixosConfigurations."@ + config_name@ + ".config.system.build.qcow2"@,
            "--out-link"@,
            result_link@,
        ],
{
    let mut target = joined(".#nixosConfigurations.", config_name);
    target.append(".config.system.build.qcow2");
    let mut r: Vec<String> = Vec::new();
    r.push(text("build"));
    r.push(target);
    r.push(text("--out-link"));
    r.push(text(result_link));
    assert(views_of(r@) =~= seq![
        "build"@,
        ".#nixosConfigurations."@ + config_name@ + ".config.system.build.qcow2"@,
        "--out-link"@,
        result_link@,
    ]);
    r
}

/// The arguments that list the names of the configurations of the source.
pub fn list_configs_args() -> (r: Vec<String>)
    ensures
        views_of(r@) == seq![
            "eval"@,
            ".#nixosConfigurations"@,
            "--apply"@,
            "builtins.attrNames"@,
            "--json"@,
        ],
{
    let mut r: Vec<String> = Vec::new();
    r.push(text("eval"));
    r.push(text(".#nixosConfigurations"));
    r.push(text("--apply"));
    r.push(text("builtins.attrNames"));
    r.push(text("--json"));
    assert(views_of(r@) =~= seq![
        "eval"@,
        ".#nixosConfigurations"@,
        "--apply"@,
        "builtins.attrNames"@,
        "--json"@,
    ]);
    r
}

/// The arguments that evaluate the desired VMs of the source to JSON.
pub fn eval_desired_args() -> (r: Vec<String>)
    ensures
        views_of(r@) == seq!["eval"@, ".#proxnix"@, "--json"@],
{
    let mut r: Vec<String> = Vec::new();
    r.push(text("eval"));
    r.push(text(".#proxnix"));
    r.push(text("--json"));
    assert(views_of(r@) =~= seq!["eval"@, ".#proxnix"@, "--json"@]);
    r
}

/// The images that building each of `config_names` in `repo_path` gives,
/// keyed by configuration name, in order.
pub fn built_images(repo_path: &str, config_names: &Vec<String>) -> (r: BuiltImages)
    ensures
        r.images@.len() == config_names@.len(),
        forall|i: int|
            0 <= i < config_names@.len() ==> (#[trigger] r.images@[i]).0@ == config_names@[i]@
                && r.images@[i].1@ == repo_path@ + "/"@ + config_names@[i]@ + "/result"@ + "/"@ + IMAGE_FILE@,
{
    let mut images: Vec<(String, String)> = Vec::new();
    let mut i: usize = 0;
    while i < config_names.len()
        invariant
            i <= config_names@.len(),
            images@.len() == i,
            forall|j: int|
                0 <= j < i ==> (#[trigger] images@[j]).0@ == config_names@[j]@
                    && images@[j].1@ == repo_path@ + "/"@ + config_names@[j]@ + "/result"@ + "/"@ + IMAGE_FILE@,
        decreases config_names@.len() - i,
    {
        let name = &config_names[i];
        let link = out_link(repo_path, name.as_str());
        let path = image_path(link.as_str());
        images.push((name.clone(), path));
        i = i + 1;
    }
    BuiltImages { images }
}

/// The outcome of building the configuration `config_name`: success when
/// the build exited with code 0, else a build-tool error that names the
/// configuration and carries the exit code and the error output.
pub fn check_build(config_name: &str, code: Option<i32>, stderr: &str) -> (r: Result<(), AppError>)
    ensures
        code == Some(0i32) ==> r is Ok,
        code != Some(0i32) ==> (r matches Err(AppError::NixError(m)) && m@ == "Nix build failed for '"@
            + config_name@ + "': "@ + failure_message(code, stderr@)),
{
    match check_exit(Tool::BuildTool, code, String::new(), stderr) {
        Ok(_) => Ok(()),
        Err(AppError::NixError(detail)) => {
            let mut m = joined("Nix build failed for '", config_name);
            m.append("': ");
            m.append(detail.as_str());
            Err(AppError::NixError(m))
        },
        Err(e) => Err(e),
    }
}

/// Picks the one path at which `filename` was found in a repository: none
/// or several is an error.
pub fn find_in_repo(found: &Vec<String>, filename: &str) -> (r: Result<String, AppError>)
    ensures
        found@.len() == 1 ==> (r matches Ok(p) && p@ == found@[0]@),
        found@.len() == 0 ==> (r matches Err(AppError::CmdError(m)) && m@ == "'"@ + filename@ + "' not found in repo"@),
        found@.len() > 1 ==> (r matches Err(AppError::CmdError(m)) && m@ == "Found "@ + decimal_of(
            found@.len() as nat,
        ) + " copies of '"@ + filename@ + "' in repo, expected exactly 1"@),
{
    if found.len() == 1 {
        Ok(found[0].clone())
    } else if found.len() == 0 {
        let mut m = text("'");
        m.append(filename);
        m.append("' not found in repo");
        Err(AppError::CmdError(m))
    } else {
        let mut m = text("Found ");
        let n = decimal_text(found.len() as u64);
        m.append(n.as_str());
        m.append(" copies of '");
        m.append(filename);
        m.append("' in repo, expected exactly 1");
        Err(AppError::CmdError(m))
    }
}

/// The places where a private SSH key is looked for, in order.
pub fn ssh_key_candidates() -> (r: Vec<String>)
    ensures
        views_of(r@) == seq![SSH_KEY_ED25519@, SSH_KEY_RSA@, SSH_KEY_ECDSA@],
{
    let mut r: Vec<String> = Vec::new();
    r.push(text(SSH_KEY_ED25519));
    r.push(text(SSH_KEY_RSA));
    r.push(text(SSH_KEY_ECDSA));
    assert(views_of(r@) =~= seq![SSH_KEY_ED25519@, SSH_KEY_RSA@, SSH_KEY_ECDSA@]);
    r
}

/// The first of `candidates` that exists, where `exists[i]` tells whether
/// `candidates[i]` does.
pub fn find_ssh_key(candidates: &Vec<String>, exists: &Vec<bool>) -> (r: Option<String>)
    requires
        exists@.len() == candidates@.len(),
    ensures
        match r {
            Some(k) => exists|i: int|
                0 <= i < candidates@.len() && #[trigger] exists@[i] && k@ == candidates@[i]@ && forall|j: int|
                    0 <= j < i ==> !exists@[j],
            None => forall|j: int| 0 <= j < exists@.len() ==> !exists@[j],
        },
{
    let mut i: usize = 0;
    while i < candidates.len()
        invariant
            exists@.len() == candidates@.len(),
            i <= candidates@.len(),
            forall|j: int| 0 <= j < i ==> !exists@[j],
        decreases candidates@.len() - i,
    {
        if exists[i] {
            return Some(candidates[i].clone());
        }
        i = i + 1;
    }
    None
}


/// How a clone authenticates over SSH.
#[derive(Debug, Clone, PartialEq, Eq)]
pub enum SshCredential {
    /// Ask the running key agent.
    Agent,
    /// Use this private key file.
    KeyFile(String),
}

/// The credential for a clone: the key agent when one runs, else the first
/// key file that exists; with neither, a Git error.
pub fn choose_credential(agent_running: bool, candidates: &Vec<String>, exists: &Vec<bool>) -> (r: Result<
    SshCredential,
    AppError,
>)
    requires
        exists@.len() == candidates@.len(),
    ensures
        agent_running ==> r == Ok::<SshCredential, AppError>(SshCredential::Agent),
        !agent_running ==> match r {
            Ok(SshCredential::KeyFile(k)) => exists|i: int|
                0 <= i < candidates@.len() && #[trigger] exists@[i] && k@ == candidates@[i]@ && forall|j: int|
                    0 <= j < i ==> !exists@[j],
            Ok(SshCredential::Agent) => false,
            Err(e) => (e is GitError) && forall|j: int| 0 <= j < exists@.len() ==> !exists@[j],
        },
{
    if agent_running {
        return Ok(SshCredential::Agent);
    }
    match find_ssh_key(candidates, exists) {
        Some(k) => Ok(SshCredential::KeyFile(k)),
        None => Err(AppError::GitError(text("no SSH agent and no SSH private key found"))),
    }
}

#[verifier::external_type_specification]
#[verifier::external_body]
pub struct ExJsonError(serde_json::Error);

/// The strings of a JSON document that is an array of strings, or `None`
/// for any other text.
pub uninterp spec fn json_string_list(s: Seq<char>) -> Option<Seq<Seq<char>>>;

/// Relies on `serde_json::from_str::<Vec<String>>`: it accepts exactly the
/// JSON arrays of strings and returns their strings in order; what it returns
/// depends on the text alone.
#[verifier::external_body]
fn read_string_list(s: &str) -> (r: Result<Vec<String>, serde_json::Error>)
    ensures
        match r {
            Ok(v) => json_string_list(s@) == Some(views_of(v@)),
            Err(_) => json_string_list(s@) is None,
        },
{
    serde_json::from_str::<Vec<String>>(s)
}

/// Reads the configuration names that the build tool lists as JSON.
pub fn config_names(eval_output: &str) -> (r: Result<Vec<String>, AppError>)
    ensures
        match r {
            Ok(v) => json_string_list(eval_output@) == Some(views_of(v@)),
            Err(e) => e is SerialisationError && json_string_list(eval_output@) is None,
        },
{
    match read_string_list(eval_output) {
        Ok(v) => Ok(v),
        Err(_) => Err(AppError::SerialisationError(text("configuration list is not a JSON array of strings"))),
    }
}

} // verus!
