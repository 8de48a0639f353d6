//! The settings that the orchestrator is started with.
//!
//! The surrounding program reads the environment once and hands each value,
//! or `None` where the variable is not set, to the functions below.
use crate::pipeline::{flag_for, BuildMode};
use vstd::prelude::*;

verus! {

/// The view of an optional setting.
pub open spec fn setting_view(setting: Option<String>) -> Option<Seq<char>> {
    match setting {
        Some(text) => Some(text@),
        None => None,
    }
}

/// The value of the build setting that selects a production build.
pub open spec fn production() -> Seq<char> {
    "production"@
}

/// The mode that a value of the build setting selects: a production build
/// for the word `production`, a development build for anything else and for
/// no value.
pub open spec fn mode_for(setting: Option<Seq<char>>) -> BuildMode {
    if setting == Some(production()) {
        BuildMode::Release
    } else {
        BuildMode::Debug
    }
}

/// The directory that holds the snapshot, relative to where the orchestrator
/// runs.
pub open spec fn snapshot_dir_name() -> Seq<char> {
    ".diff"@
}

/// The root of the frontend where none is set.
pub open spec fn default_wasm_path() -> Seq<char> {
    "app"@
}

/// The address of the static server where none is set.
pub open spec fn default_server_address() -> Seq<char> {
    "127.0.0.1:8080"@
}

/// A setting, or `default` where it is not set.
pub open spec fn setting_or(setting: Option<Seq<char>>, default: Seq<char>) -> Seq<char> {
    match setting {
        Some(text) => text,
        None => default,
    }
}

/// The mode that the build setting selects.
pub fn build_mode(env_build: &Option<String>) -> (mode: BuildMode)
    ensures
        mode == mode_for(setting_view(*env_build)),
{
    match env_build {
        Some(text) => {
            let production = "production".to_owned();
            if *text == production {
                BuildMode::Release
            } else {
                BuildMode::Debug
            }
        },
        None => BuildMode::Debug,
    }
}

/// The flag that the build tool is run with: `--release` where the build
/// setting is the word `production`, `--dev` otherwise.
pub fn get_env_build(env_build: Option<String>) -> (flag: String)
    ensures
        flag@ == flag_for(mode_for(setting_view(env_build))),
{
    build_mode(&env_build).flag()
}

/// The root of the frontend: the setting, or `app`.
pub fn get_wasm_path(wasm_path: Option<String>) -> (path: String)
    ensures
        path@ == setting_or(setting_view(wasm_path), default_wasm_path()),
{
    match wasm_path {
        Some(path) => path,
        None => "app".to_owned(),
    }
}

/// The address that the static server listens on: the setting, or
/// `127.0.0.1:8080`.
pub fn get_server_address(server_address: Option<String>) -> (address: String)
    ensures
        address@ == setting_or(setting_view(server_address), default_server_address()),
{
    match server_address {
        Some(address) => address,
        None => "127.0.0.1:8080".to_owned(),
    }
}

/// The directory that is watched: `src` below the root of the frontend.
pub fn source_dir(wasm_path: &str) -> (dir: String)
    ensures
        dir@ == wasm_path@ + "/src"@,
{
    wasm_path.to_owned().concat("/src")
}

/// The directory that holds the snapshot.
pub fn snapshot_dir() -> (dir: String)
    ensures
        dir@ == snapshot_dir_name(),
{
    ".diff".to_owned()
}

/// The place of a served file or directory: `name` below the root of the
/// frontend.
pub fn asset_path(wasm_path: &str, name: &str) -> (path: String)
    ensures
        path@ == wasm_path@ + "/"@ + name@,
{
    wasm_path.to_owned().concat("/").concat(name)
}

} // verus!
