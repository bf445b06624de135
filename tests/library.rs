use rclone_explorer::catalog::{
    config_create, config_delete, config_reconnect, provider_for, provider_from_code, provider_label,
    remote_for,
};
use rclone_explorer::listing::{
    drive_display_name, drive_item, drive_listing, DriveInfo, items_from_listing, join_entry_path, list_source, local_item,
    remote_target, root_drive_item, split_drive_strings, DriveKind, ListSource, ListingEntry,
};
use rclone_explorer::model::{CopyOptions, FileItem};
use rclone_explorer::order::{sort_drive_items, sort_local_items, text_le_exec};
use rclone_explorer::provision::{
    download_source, exe_name, exe_path_in, file_in, install_dir_in, is_rclone_entry, parse_version,
    rclone_info, Platform,
};
use rclone_explorer::runner::{spawn_error, tool_outcome};
use rclone_explorer::text::{parse_remote_names, remote_name_from_line, same_text};
use rclone_explorer::transfer::{
    batch_start, batch_step, copy_commands, decimal_text, delete_commands, get_job, get_jobs, job_id,
    move_commands, new_job_id, BatchStep,
};
use std::collections::HashMap;

fn strings(v: &[&str]) -> Vec<String> {
    v.iter().map(|s| s.to_string()).collect()
}

fn local(name: &str, is_dir: bool) -> FileItem {
    local_item(name.to_string(), format!("/tmp/{}", name), 0, is_dir, None)
}

#[test]
fn remote_names_one_per_line() {
    assert_eq!(parse_remote_names("gdrive:\ns3remote:\nbox:\n"), strings(&["gdrive", "s3remote", "box"]));
}

#[test]
fn remote_names_skip_blank_lines() {
    assert_eq!(parse_remote_names("a:\n\n   \nb:\r\n"), strings(&["a", "b"]));
    assert_eq!(parse_remote_names(""), Vec::<String>::new());
    assert_eq!(parse_remote_names("\n\n"), Vec::<String>::new());
}

#[test]
fn remote_names_without_final_newline() {
    assert_eq!(parse_remote_names("  one:  \ntwo::"), strings(&["one", "two"]));
}

#[test]
fn remote_name_line_keeps_inner_text() {
    assert_eq!(remote_name_from_line("  my remote: "), "my remote");
    assert_eq!(remote_name_from_line(":"), "");
}

#[test]
fn provider_labels_of_known_codes() {
    assert_eq!(provider_label("drive"), "Google Drive");
    assert_eq!(provider_label("onedrive"), "OneDrive");
    assert_eq!(provider_label("dropbox"), "Dropbox");
    assert_eq!(provider_label("s3"), "Amazon S3");
}

#[test]
fn provider_label_passes_unknown_code_through() {
    assert_eq!(provider_label("webdav"), "webdav");
    assert_eq!(provider_from_code(None), "Unknown");
    assert_eq!(provider_from_code(Some("sftp".to_string())), "sftp");
}

#[test]
fn provider_read_from_config_dump() {
    let dump = r#"{"work":{"type":"s3","provider":"AWS"},"home":{"type":"webdav"}}"#;
    assert_eq!(provider_for(Some(dump), "work"), "Amazon S3");
    assert_eq!(provider_for(Some(dump), "home"), "webdav");
    assert_eq!(provider_for(Some(dump), "other"), "Unknown");
}

#[test]
fn provider_unknown_when_dump_fails() {
    assert_eq!(provider_for(None, "work"), "Unknown");
    assert_eq!(provider_for(Some(""), "work"), "Unknown");
    assert_eq!(provider_for(Some("not json"), "work"), "Unknown");
    assert_eq!(provider_for(Some(r#"{"work":{"type":3}}"#), "work"), "Unknown");
}

#[test]
fn remote_entry_is_connected() {
    let r = remote_for("work".to_string(), Some(r#"{"work":{"type":"drive"}}"#.to_string()));
    assert_eq!(r.name, "work");
    assert_eq!(r.provider, "Google Drive");
    assert_eq!(r.status, "Connected");
    let r = remote_for("x".to_string(), None);
    assert_eq!(r.provider, "Unknown");
    assert_eq!(r.status, "Connected");
}

#[test]
fn config_requests_always_succeed() {
    assert_eq!(config_create("a".to_string(), "s3".to_string(), HashMap::new()), Ok(()));
    assert_eq!(config_reconnect("a".to_string()), Ok(()));
    assert_eq!(config_delete("a".to_string()), Ok(()));
}

#[test]
fn listing_source_dispatch() {
    assert_eq!(list_source("This PC", "/"), ListSource::Drives);
    assert_eq!(list_source("This PC", "/home"), ListSource::Local);
    assert_eq!(list_source("gdrive", "/"), ListSource::Remote);
    assert_eq!(list_source("this pc", "/"), ListSource::Remote);
}

#[test]
fn root_entry_on_other_platforms() {
    let drives = vec![root_drive_item()];
    assert_eq!(drives.len(), 1);
    assert_eq!(drives[0].path, "/");
    assert_eq!(drives[0].name, "Root (/)");
    assert!(drives.iter().all(|d| d.is_dir));
    assert_eq!(drives[0].size, 0);
    assert_eq!(drives[0].mime_type, None);
}

#[test]
fn local_listing_directories_first_case_insensitive() {
    let items = vec![local("b.txt", false), local("A", true), local("a.txt", false)];
    let sorted = sort_local_items(items);
    let names: Vec<&str> = sorted.iter().map(|i| i.name.as_str()).collect();
    assert_eq!(names, vec!["A", "a.txt", "b.txt"]);
}

#[test]
fn local_listing_orders_each_group() {
    let items = vec![
        local("zeta", false),
        local("beta", true),
        local("Alpha", true),
        local("Gamma.txt", false),
        local("delta", false),
    ];
    let sorted = sort_local_items(items);
    let names: Vec<&str> = sorted.iter().map(|i| i.name.as_str()).collect();
    assert_eq!(names, vec!["Alpha", "beta", "delta", "Gamma.txt", "zeta"]);
    assert_eq!(sort_local_items(Vec::new()), Vec::new());
}

#[test]
fn text_order_is_lexicographic() {
    assert!(text_le_exec("a", "b"));
    assert!(text_le_exec("ab", "abc"));
    assert!(!text_le_exec("abc", "ab"));
    assert!(text_le_exec("", ""));
    assert!(!text_le_exec("b", "a"));
    assert!(same_text("x y", "x y"));
    assert!(!same_text("x", "xy"));
}

#[test]
fn local_item_timestamps_in_utc() {
    let it = local_item("f".to_string(), "/d/f".to_string(), 12, false, Some(0));
    assert_eq!(it.modified, "1970-01-01 00:00:00");
    let it = local_item("f".to_string(), "/d/f".to_string(), 12, false, Some(86400 + 3661));
    assert_eq!(it.modified, "1970-01-02 01:01:01");
    assert_eq!(it.size, 12);
    assert_eq!(it.path, "/d/f");
    let it = local_item("f".to_string(), "/d/f".to_string(), 12, false, None);
    assert_eq!(it.modified, "");
    let it = local_item("f".to_string(), "/d/f".to_string(), 12, false, Some(i64::MAX));
    assert_eq!(it.modified, "");
}

#[test]
fn join_path_single_separator() {
    assert_eq!(join_entry_path("/docs", "report.pdf"), "/docs/report.pdf");
    assert_eq!(join_entry_path("/docs/", "report.pdf"), "/docs/report.pdf");
    assert_eq!(join_entry_path("", "a"), "/a");
    assert_eq!(join_entry_path("/", "a"), "/a");
}

#[test]
fn remote_target_uses_colon() {
    assert_eq!(remote_target("gdrive", "/docs/a.txt"), "gdrive:/docs/a.txt");
}

#[test]
fn remote_listing_items_keep_entries() {
    let entries = vec![
        ListingEntry {
            path: "sub".to_string(),
            name: "sub".to_string(),
            size: -1,
            mime_type: Some("inode/directory".to_string()),
            mod_time: "2024-01-01T00:00:00Z".to_string(),
            is_dir: true,
        },
        ListingEntry {
            path: "a.txt".to_string(),
            name: "a.txt".to_string(),
            size: 42,
            mime_type: None,
            mod_time: "2024-02-02T10:00:00Z".to_string(),
            is_dir: false,
        },
    ];
    let items = items_from_listing("/docs", entries);
    assert_eq!(items.len(), 2);
    assert_eq!(items[0].path, "/docs/sub");
    assert_eq!(items[0].mime_type, Some("inode/directory".to_string()));
    assert!(items[0].is_dir);
    assert_eq!(items[1].name, "a.txt");
    assert_eq!(items[1].path, "/docs/a.txt");
    assert_eq!(items[1].size, 42);
    assert_eq!(items[1].modified, "2024-02-02T10:00:00Z");
}

#[test]
fn drive_names() {
    assert_eq!(drive_display_name("D:\\", "Data", DriveKind::Fixed), "Data (D:)");
    assert_eq!(drive_display_name("C:\\", "", DriveKind::Fixed), "Local Disk (C:)");
    assert_eq!(drive_display_name("E:\\", "", DriveKind::Removable), "Removable Disk (E:)");
    assert_eq!(drive_display_name("Z:\\", "", DriveKind::Network), "Network Drive (Z:)");
    assert_eq!(drive_display_name("F:\\", "", DriveKind::CdRom), "CD Drive (F:)");
    assert_eq!(drive_display_name("G:\\", "", DriveKind::Other), "Drive (G:)");
}

#[test]
fn drive_items_are_directories() {
    let d = drive_item("C:\\".to_string(), "", DriveKind::Fixed, Some(1000));
    assert!(d.is_dir);
    assert_eq!(d.size, 1000);
    assert_eq!(d.path, "C:\\");
    let d = drive_item("D:\\".to_string(), "Backup", DriveKind::Fixed, None);
    assert_eq!(d.size, 0);
    assert_eq!(d.name, "Backup (D:)");
}

#[test]
fn drive_buffer_split() {
    let mut buf: Vec<u16> = Vec::new();
    for s in ["C:\\", "D:\\"] {
        buf.extend(s.encode_utf16());
        buf.push(0);
    }
    buf.push(0);
    let roots = split_drive_strings(&buf);
    assert_eq!(roots.len(), 2);
    assert_eq!(String::from_utf16(&roots[0]).unwrap(), "C:\\");
    assert_eq!(String::from_utf16(&roots[1]).unwrap(), "D:\\");
    assert_eq!(split_drive_strings(&vec![0, 0]), vec![vec![0u16]]);
    let tail: Vec<u16> = "C:\\".encode_utf16().collect();
    assert!(split_drive_strings(&tail).is_empty());
}

#[test]
fn drives_sorted_by_path() {
    let items = vec![
        drive_item("E:\\".to_string(), "", DriveKind::Removable, None),
        drive_item("C:\\".to_string(), "", DriveKind::Fixed, None),
        drive_item("D:\\".to_string(), "", DriveKind::Fixed, None),
    ];
    let paths: Vec<String> = sort_drive_items(items).into_iter().map(|d| d.path).collect();
    assert_eq!(paths, strings(&["C:\\", "D:\\", "E:\\"]));
}

#[test]
fn copy_commands_skip_existing() {
    let opts = CopyOptions { overwrite: true, skip_existing: true };
    let cmds = copy_commands("src", &strings(&["/a", "/b", "/c"]), "dst", "/out", opts);
    assert_eq!(cmds.len(), 3);
    assert_eq!(cmds[0], strings(&["copy", "src:/a", "dst:/out", "--ignore-existing"]));
    assert_eq!(cmds[1], strings(&["copy", "src:/b", "dst:/out", "--ignore-existing"]));
    assert_eq!(cmds[2], strings(&["copy", "src:/c", "dst:/out", "--ignore-existing"]));
}

#[test]
fn copy_commands_without_overwrite() {
    let opts = CopyOptions { overwrite: false, skip_existing: false };
    let cmds = copy_commands("src", &strings(&["/a"]), "dst", "/out", opts);
    assert_eq!(cmds, vec![strings(&["copy", "src:/a", "dst:/out", "--no-update-modtime"])]);
    let opts = CopyOptions { overwrite: false, skip_existing: true };
    let cmds = copy_commands("src", &strings(&["/a"]), "dst", "/out", opts);
    assert_eq!(cmds, vec![strings(&["copy", "src:/a", "dst:/out", "--ignore-existing", "--no-update-modtime"])]);
    assert!(copy_commands("src", &Vec::new(), "dst", "/", opts).is_empty());
}

#[test]
fn move_and_delete_commands() {
    let cmds = move_commands("a", &strings(&["/x", "/y"]), "b", "/z");
    assert_eq!(cmds, vec![strings(&["move", "a:/x", "b:/z"]), strings(&["move", "a:/y", "b:/z"])]);
    let cmds = delete_commands("r", &strings(&["/p", "/q"]));
    assert_eq!(cmds, vec![strings(&["deletefile", "r:/p"]), strings(&["deletefile", "r:/q"])]);
}

#[test]
fn batch_stops_at_second_failure() {
    let outcomes: Vec<Result<String, String>> =
        vec![Ok(String::new()), Err("Rclone error: boom".to_string()), Ok(String::new())];
    let mut ran: Vec<usize> = Vec::new();
    let mut step = batch_start(outcomes.len());
    let end = loop {
        match step {
            BatchStep::Run(i) => {
                ran.push(i);
                step = batch_step(outcomes.len(), i, outcomes[i].clone());
            }
            other => break other,
        }
    };
    assert_eq!(ran, vec![0, 1]);
    assert_eq!(end, BatchStep::Failed("Rclone error: boom".to_string()));
}

#[test]
fn batch_runs_all_on_success() {
    assert_eq!(batch_start(0), BatchStep::Finished);
    assert_eq!(batch_start(2), BatchStep::Run(0));
    assert_eq!(batch_step(2, 0, Ok(String::new())), BatchStep::Run(1));
    assert_eq!(batch_step(2, 1, Ok(String::new())), BatchStep::Finished);
}

#[test]
fn job_identifiers() {
    assert_eq!(job_id(1700000000), "job_1700000000");
    assert_eq!(job_id(0), "job_0");
    assert_eq!(job_id(-5), "job_-5");
    assert_eq!(decimal_text(i64::MIN), "-9223372036854775808");
    assert_eq!(decimal_text(i64::MAX), "9223372036854775807");
    let id = new_job_id();
    assert!(id.starts_with("job_"));
    assert!(id.len() > 4);
}

#[test]
fn jobs_are_never_recorded() {
    assert!(get_jobs().is_empty());
    let _ = new_job_id();
    assert!(get_jobs().is_empty());
    assert_eq!(get_job("job_1".to_string()), None);
    assert_eq!(get_job(String::new()), None);
}

#[test]
fn version_from_output() {
    let out = "rclone v1.65.0\n- os/version: ubuntu 22.04\n";
    assert_eq!(parse_version(out), Some("1.65.0".to_string()));
    assert_eq!(parse_version("  rclone   vv2.0 extra"), Some("2.0".to_string()));
    assert_eq!(parse_version("rclone 1.2\r\n"), Some("1.2".to_string()));
    assert_eq!(parse_version("rclone\nv1.0"), None);
    assert_eq!(parse_version(""), None);
    assert_eq!(parse_version("rclone v"), Some(String::new()));
}

#[test]
fn version_check_without_executable() {
    let info = rclone_info("/x/rclone".to_string(), None);
    assert!(!info.installed);
    assert_eq!(info.version, None);
    assert_eq!(info.path, "/x/rclone");
    let info = rclone_info("/x/rclone".to_string(), Some("rclone v1.66.0\n".to_string()));
    assert!(info.installed);
    assert_eq!(info.version, Some("1.66.0".to_string()));
}

#[test]
fn install_paths() {
    assert_eq!(install_dir_in("/home/u/.local/share", false), "/home/u/.local/share/RcloneExplorer/rclone");
    assert_eq!(install_dir_in("/base/", false), "/base/RcloneExplorer/rclone");
    assert_eq!(install_dir_in("C:\\Users\\A\\AppData\\Local", true), "C:\\Users\\A\\AppData\\Local\\RcloneExplorer\\rclone");
    assert_eq!(exe_path_in("/d", false), "/d/rclone");
    assert_eq!(exe_path_in("C:\\d", true), "C:\\d\\rclone.exe");
    assert_eq!(exe_name(true), "rclone.exe");
    assert_eq!(file_in("/d", "a.zip", false), "/d/a.zip");
}

#[test]
fn download_sources() {
    let (url, name) = download_source(Platform::Linux);
    assert_eq!(url, "https://downloads.rclone.org/rclone-current-linux-amd64.zip");
    assert_eq!(name, "rclone-current-linux-amd64.zip");
    assert_eq!(download_source(Platform::Windows64).1, "rclone-current-windows-amd64.zip");
    assert_eq!(download_source(Platform::Windows32).1, "rclone-current-windows-386.zip");
    assert_eq!(download_source(Platform::MacOs).0, "https://downloads.rclone.org/rclone-current-osx-amd64.zip");
}

#[test]
fn archive_entry_matching() {
    assert!(is_rclone_entry("rclone-v1.65.0-windows-amd64/rclone.exe"));
    assert!(is_rclone_entry("rclone-current/rclone"));
    assert!(!is_rclone_entry("rclone-v1.65.0-linux-amd64/rclone"));
    assert!(!is_rclone_entry("rclone-current/rclone.1"));
    assert!(!is_rclone_entry("README.txt"));
}

#[test]
fn tool_outcomes() {
    assert_eq!(tool_outcome(true, Ok("a:\n".to_string()), ""), Ok("a:\n".to_string()));
    assert_eq!(tool_outcome(false, Ok("x".to_string()), "boom"), Err("Rclone error: boom".to_string()));
    assert_eq!(
        tool_outcome(true, Err("bad byte".to_string()), ""),
        Err("Invalid UTF-8 output: bad byte".to_string())
    );
    assert_eq!(
        spawn_error("No such file or directory (os error 2)"),
        "Failed to execute rclone: No such file or directory (os error 2). Make sure rclone is installed."
    );
}

#[test]
fn drive_listing_skips_empty_roots_and_sorts() {
    let drive = |root: &str, label: &str, kind: DriveKind, capacity: Option<i64>| DriveInfo {
        root: root.to_string(),
        label: label.to_string(),
        kind,
        capacity,
    };
    let items = drive_listing(vec![
        drive("E:\\", "", DriveKind::Removable, None),
        drive("", "ghost", DriveKind::Other, None),
        drive("C:\\", "System", DriveKind::Fixed, Some(512)),
    ]);
    assert_eq!(items.len(), 2);
    assert_eq!(items[0].path, "C:\\");
    assert_eq!(items[0].name, "System (C:)");
    assert_eq!(items[0].size, 512);
    assert_eq!(items[1].name, "Removable Disk (E:)");
    assert!(items.iter().all(|i| i.is_dir && i.mime_type.is_none() && i.modified.is_empty()));
    assert!(drive_listing(Vec::new()).is_empty());
}
