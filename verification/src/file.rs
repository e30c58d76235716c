//! Where the client keeps its files. Paths are text, with `/` between the
//! names.

use vstd::prelude::*;
use vstd::string::*;

verus! {

/// The directory of the client, below the home directory.
pub const CLI_DIR: &'static str = ".config/jwekke-ai-cli";

/// The file that holds the configuration.
pub const CONFIG_FILE_NAME: &'static str = "config.jwek";

/// The file that takes the raw deliveries.
pub const STREAM_LOG_FILE_PATH: &'static str = "stream.log";

/// The file that takes the error records.
pub const ERROR_LOG_FILE_PATH: &'static str = "error.log";

/// The path `name` as seen from the directory `dir`: `name` itself where it
/// begins at the root, else `dir` and `name` with one `/` between them,
/// which is left out where `dir` is empty or ends in one.
pub open spec fn joined_path(dir: Seq<char>, name: Seq<char>) -> Seq<char> {
    if name.len() > 0 && name[0] == '/' {
        name
    } else if dir.len() == 0 || dir.last() == '/' {
        dir + name
    } else {
        dir + seq!['/'] + name
    }
}

/// Joins `name` to the directory `dir`.
pub fn join_path(dir: &str, name: &str) -> (r: String)
    ensures
        r@ == joined_path(dir@, name@),
{
    let name_len = name.unicode_len();
    if name_len > 0 && name.get_char(0) == '/' {
        return String::from_str(name);
    }
    let dir_len = dir.unicode_len();
    let mut path = String::from_str(dir);
    if dir_len > 0 && dir.get_char(dir_len - 1) != '/' {
        proof {
            reveal_strlit("/");
            assert("/"@ =~= seq!['/']);
        }
        path.append("/");
    }
    path.append(name);
    path
}

/// The directory of the client for the home directory `home`.
pub fn cli_config_dir(home: &str) -> (r: String)
    ensures
        r@ == joined_path(home@, CLI_DIR@),
{
    join_path(home, CLI_DIR)
}

/// The path of the configuration file in the client's directory.
pub fn get_config_file_path(config_dir: &str) -> (r: String)
    ensures
        r@ == joined_path(config_dir@, CONFIG_FILE_NAME@),
{
    join_path(config_dir, CONFIG_FILE_NAME)
}

/// The path of the error log in the client's directory.
pub fn get_error_log_file_path(config_dir: &str) -> (r: String)
    ensures
        r@ == joined_path(config_dir@, ERROR_LOG_FILE_PATH@),
{
    join_path(config_dir, ERROR_LOG_FILE_PATH)
}

/// The path of the stream log in the client's directory.
pub fn get_stream_log_file_path(config_dir: &str) -> (r: String)
    ensures
        r@ == joined_path(config_dir@, STREAM_LOG_FILE_PATH@),
{
    join_path(config_dir, STREAM_LOG_FILE_PATH)
}

} // verus!
