//! The parts of a resource that interpolation reads and writes.
use vstd::prelude::*;

verus! {

/// A command that runs around a deployment step.
#[derive(Debug)]
pub struct SystemCommand {
    pub command: String,
}

/// The configuration of a stack.
#[derive(Debug)]
pub struct StackConfig {
    pub skip_secret_interp: bool,
    pub file_contents: String,
    pub environment: String,
    pub pre_deploy: SystemCommand,
    pub post_deploy: SystemCommand,
    pub compose_cmd_wrapper: String,
    pub extra_args: Vec<String>,
    pub build_extra_args: Vec<String>,
}

/// A stack.
#[derive(Debug)]
pub struct Stack {
    pub config: StackConfig,
}

/// The configuration of a repo.
#[derive(Debug)]
pub struct RepoConfig {
    pub skip_secret_interp: bool,
    pub environment: String,
    pub on_clone: SystemCommand,
    pub on_pull: SystemCommand,
}

/// A repo.
#[derive(Debug)]
pub struct Repo {
    pub config: RepoConfig,
}

/// The configuration of a build.
#[derive(Debug)]
pub struct BuildConfig {
    pub skip_secret_interp: bool,
    pub build_args: String,
    pub secret_args: String,
    pub labels: String,
    pub pre_build: SystemCommand,
    pub dockerfile: String,
    pub extra_args: Vec<String>,
}

/// A build.
#[derive(Debug)]
pub struct Build {
    pub config: BuildConfig,
}

/// The configuration of a deployment.
#[derive(Debug)]
pub struct DeploymentConfig {
    pub skip_secret_interp: bool,
    pub environment: String,
    pub ports: String,
    pub volumes: String,
    pub labels: String,
    pub command: String,
    pub extra_args: Vec<String>,
}

/// A deployment.
#[derive(Debug)]
pub struct Deployment {
    pub config: DeploymentConfig,
}

/// A variable of an environment with its value.
#[derive(Debug)]
pub struct EnvironmentVar {
    pub variable: String,
    pub value: String,
}

/// A successful step of an update, with what it wrote to its standard output.
#[derive(Debug)]
pub struct Log {
    pub stage: String,
    pub stdout: String,
}

impl Log {
    /// The log of a stage that has `msg` to say.
    pub fn simple(stage: &str, msg: String) -> (r: Log)
        ensures
            r.stage@ == stage@,
            r.stdout@ == msg@,
    {
        Log { stage: stage.to_owned(), stdout: msg }
    }
}

} // verus!
