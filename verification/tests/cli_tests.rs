use migrator::any_error::AnyError;
use migrator::cli::{Cli, Commands, DatabaseUrl, Migrate, MigrateCommands};
use migrator::revision::Revision;

#[test]
fn database_url_memory_connection_string() {
    assert_eq!(DatabaseUrl::Memory.as_str(), ":memory:");
}

#[test]
fn database_url_file_connection_string() {
    let url = DatabaseUrl::File("some/dir/app.db".to_string());
    assert_eq!(url.as_str(), "some/dir/app.db");
}

#[test]
fn any_error_keeps_its_message() {
    let e = AnyError::new("something went wrong".to_string());
    assert_eq!(e.message(), "something went wrong");
}

#[test]
fn command_values_carry_their_parts() {
    let revision = Revision::parse(b"head").unwrap();
    let cli = Cli {
        command: Commands::Migrate(Migrate {
            command: MigrateCommands::Up {
                revision,
                database_url: DatabaseUrl::Memory,
            },
        }),
    };
    match cli.command {
        Commands::Migrate(migrate) => match migrate.command {
            MigrateCommands::Up { database_url, .. } => {
                assert_eq!(database_url.as_str(), ":memory:");
            }
            _ => panic!("expected the up command"),
        },
        _ => panic!("expected the migrate command"),
    }
}
