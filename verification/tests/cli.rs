use nube_sync::cli::ClearSubCommand;
use nube_sync::cli::NubeSyncCommand;
use nube_sync::cli::SubCommand;
use nube_sync::cli::SyncSubCommand;

#[test]
fn remote_location_ends_with_a_slash() {
    let cmd = SyncSubCommand::new("Documents/notes".to_string(), None, None);
    assert_eq!(cmd.remote_location(), "Documents/notes/");
    let cmd = SyncSubCommand::new("Documents/notes/".to_string(), None, None);
    assert_eq!(cmd.remote_location(), "Documents/notes/");
    let cmd = SyncSubCommand::new(String::new(), None, None);
    assert_eq!(cmd.remote_location(), "/");
}

#[test]
fn out_dir_is_what_was_given() {
    let cmd = SyncSubCommand::new("d".to_string(), Some("/tmp/out".to_string()), None);
    assert_eq!(cmd.out_dir(), Some(&"/tmp/out".to_string()));
    let cmd = SyncSubCommand::new("d".to_string(), None, None);
    assert_eq!(cmd.out_dir(), None);
}

#[test]
fn config_location_defaults_to_the_named_file() {
    let cmd = SyncSubCommand::new("d".to_string(), None, Some("/etc/my.toml".to_string()));
    assert_eq!(cmd.config_location("/home/me/project"), "/etc/my.toml");
    let cmd = SyncSubCommand::new("d".to_string(), None, None);
    assert_eq!(cmd.config_location("/home/me/project"), "/home/me/project/nube-sync.config.toml");
    assert_eq!(cmd.config_location("/home/me/project/"), "/home/me/project/nube-sync.config.toml");
}

#[test]
fn commands_hold_their_arguments() {
    let sync = NubeSyncCommand {
        cmd: SubCommand::Sync(SyncSubCommand::new("d".to_string(), None, None)),
    };
    assert!(matches!(sync.cmd, SubCommand::Sync(_)));
    let clear = NubeSyncCommand { cmd: SubCommand::Clear(ClearSubCommand { out: "o".to_string() }) };
    match clear.cmd {
        SubCommand::Clear(args) => assert_eq!(args.out, "o"),
        SubCommand::Sync(_) | SubCommand::Migrate(_) => panic!("a clear was given"),
    }
}
