use commitblock::engine::CONFIG_FILE_PATH;
use commitblock::engine::GH_API_PATH;
use commitblock::hosts::HOST_FILE_BLOCK_PREFIX;
use commitblock::hosts::HOST_FILE_COMMIT_BLOCK_BEGIN;
use commitblock::hosts::HOST_FILE_COMMIT_BLOCK_END;
use commitblock::hosts::HOST_FILE_LOCAL_PREFIX_DISABLED_IP4;
use commitblock::hosts::HOST_FILE_LOCAL_PREFIX_IP4;
use commitblock::hosts::HOST_FILE_PATH;

#[test]
fn host_file_name() {
    assert_eq!(HOST_FILE_PATH, "/etc/hosts")
}

#[test]
fn config_file_name() {
    assert_eq!(CONFIG_FILE_PATH, "config.toml")
}

#[test]
fn gh_api_path() {
    assert_eq!(GH_API_PATH, "https://api.github.com/graphql")
}

#[test]
fn commit_block_file_content() {
    assert_eq!(HOST_FILE_COMMIT_BLOCK_BEGIN, "### CommitBlock");
    assert_eq!(HOST_FILE_COMMIT_BLOCK_END, "### End CommitBlock");
    assert_eq!(HOST_FILE_LOCAL_PREFIX_IP4, "127.0.0.1\t");
    assert_eq!(HOST_FILE_BLOCK_PREFIX, "#");
    assert_eq!(HOST_FILE_LOCAL_PREFIX_DISABLED_IP4, "#127.0.0.1\t")
}

#[test]
fn default_config_when_no_file_exists() {
    let config = <commitblock::engine::Config as Default>::default();
    assert_eq!(config.github_username, "".to_string());
    assert_eq!(config.contribution_goal, 1);
}
