//! Storage locations of recordings, projects and exports. The library
//! computes the path strings; creating the directories is left to the
//! embedding shell, as is every other filesystem touch.

use vstd::prelude::*;

verus! {

/// Whether `s` ends with `suffix`.
pub open spec fn str_ends_with(s: Seq<char>, suffix: Seq<char>) -> bool {
    s.len() >= suffix.len() && s.subrange(s.len() - suffix.len(), s.len() as int) == suffix
}

/// Relies on dirs::data_dir: the platform's data directory, when the
/// platform defines one. The result depends on the environment, so
/// nothing is promised of it.
#[verifier::external_body]
fn platform_data_dir() -> (r: Option<String>) {
    dirs::data_dir().map(|p| p.to_string_lossy().into_owned())
}

/// Relies on dirs::video_dir: the platform's video directory, when the
/// platform defines one. The result depends on the environment, so
/// nothing is promised of it.
#[verifier::external_body]
fn platform_video_dir() -> (r: Option<String>) {
    dirs::video_dir().map(|p| p.to_string_lossy().into_owned())
}

/// Relies on dirs::home_dir: the user's home directory, when the
/// platform defines one. The result depends on the environment, so
/// nothing is promised of it.
#[verifier::external_body]
fn platform_home_dir() -> (r: Option<String>) {
    dirs::home_dir().map(|p| p.to_string_lossy().into_owned())
}

/// `base` and `name` joined with the path separator.
fn join_path(base: &str, name: &str) -> (r: String)
    ensures
        r@ == base@ + "/"@ + name@,
{
    let mut s = base.to_owned();
    s.append("/");
    s.append(name);
    s
}

/// Joining never loses the file name: the result ends with the
/// separator and the name, whatever the base.
pub proof fn lemma_join_keeps_name(base: Seq<char>, joined: Seq<char>, name: Seq<char>)
    requires
        joined == base + "/"@ + name,
    ensures
        str_ends_with(joined, "/"@ + name),
{
    assert(joined.subrange(joined.len() - ("/"@ + name).len(), joined.len() as int) =~= "/"@
        + name);
}

/// The application's data directory: the platform data directory (or
/// the current directory, when the platform defines none) plus the
/// application folder.
pub fn app_data_dir() -> (r: String)
    ensures
        str_ends_with(r@, "/OpenScreenPlace"@),
{
    let base: String = match platform_data_dir() {
        Some(d) => d,
        None => ".".to_owned(),
    };
    let r = join_path(base.as_str(), "OpenScreenPlace");
    proof {
        reveal_strlit("/");
        reveal_strlit("OpenScreenPlace");
        reveal_strlit("/OpenScreenPlace");
        lemma_join_keeps_name(base@, r@, "OpenScreenPlace"@);
        assert("/"@ + "OpenScreenPlace"@ =~= "/OpenScreenPlace"@);
    }
    r
}

/// Where finished recordings are stored.
pub fn recordings_dir() -> (r: String)
    ensures
        str_ends_with(r@, "/recordings"@),
{
    let base = app_data_dir();
    let r = join_path(base.as_str(), "recordings");
    proof {
        reveal_strlit("/");
        reveal_strlit("recordings");
        reveal_strlit("/recordings");
        lemma_join_keeps_name(base@, r@, "recordings"@);
        assert("/"@ + "recordings"@ =~= "/recordings"@);
    }
    r
}

/// Where project folders are stored.
pub fn projects_dir() -> (r: String)
    ensures
        str_ends_with(r@, "/projects"@),
{
    let base = app_data_dir();
    let r = join_path(base.as_str(), "projects");
    proof {
        reveal_strlit("/");
        reveal_strlit("projects");
        reveal_strlit("/projects");
        lemma_join_keeps_name(base@, r@, "projects"@);
        assert("/"@ + "projects"@ =~= "/projects"@);
    }
    r
}

/// Where exported videos are placed: the platform video directory, the
/// home directory, or the current directory, in that order of
/// preference.
pub fn exports_dir() -> (r: String)
    ensures
        str_ends_with(r@, "/OpenScreenPlace"@),
{
    let base: String = match platform_video_dir() {
        Some(d) => d,
        None => match platform_home_dir() {
            Some(h) => h,
            None => ".".to_owned(),
        },
    };
    let r = join_path(base.as_str(), "OpenScreenPlace");
    proof {
        reveal_strlit("/");
        reveal_strlit("OpenScreenPlace");
        reveal_strlit("/OpenScreenPlace");
        lemma_join_keeps_name(base@, r@, "OpenScreenPlace"@);
        assert("/"@ + "OpenScreenPlace"@ =~= "/OpenScreenPlace"@);
    }
    r
}

/// The folder of one project.
pub fn project_dir(project_id: &str) -> (r: String)
    ensures
        str_ends_with(r@, "/"@ + project_id@),
{
    let base = projects_dir();
    let r = join_path(base.as_str(), project_id);
    proof {
        reveal_strlit("/");
        lemma_join_keeps_name(base@, r@, project_id@);
    }
    r
}

/// The path of a file inside one project's folder.
fn project_file_path(project_id: &str, file_name: &str) -> (r: String)
    ensures
        str_ends_with(r@, "/"@ + project_id@ + "/"@ + file_name@),
{
    let base = project_dir(project_id);
    let r = join_path(base.as_str(), file_name);
    proof {
        reveal_strlit("/");
        lemma_join_keeps_name(base@, r@, file_name@);
        assert(r@.subrange(
            r@.len() - ("/"@ + project_id@ + "/"@ + file_name@).len(),
            r@.len() as int,
        ) =~= "/"@ + project_id@ + "/"@ + file_name@);
    }
    r
}

/// The recorded video of one project.
pub fn project_video_path(project_id: &str) -> (r: String)
    ensures
        str_ends_with(r@, "/"@ + project_id@ + "/"@ + "recording.mp4"@),
{
    project_file_path(project_id, "recording.mp4")
}

/// The recorded event log of one project.
pub fn project_events_path(project_id: &str) -> (r: String)
    ensures
        str_ends_with(r@, "/"@ + project_id@ + "/"@ + "events.json"@),
{
    project_file_path(project_id, "events.json")
}

/// The metadata file of one project.
pub fn project_metadata_path(project_id: &str) -> (r: String)
    ensures
        str_ends_with(r@, "/"@ + project_id@ + "/"@ + "project.json"@),
{
    project_file_path(project_id, "project.json")
}

} // verus!
