use dlm::protocol::{command_value, decode_request, Commands, CommandsValue, ProtocolError, Request};

fn line(command: &str, urls: Option<Vec<&str>>, id: Option<usize>) -> CommandsValue {
    CommandsValue {
        command: command.to_string(),
        urls: urls.map(|v| v.into_iter().map(String::from).collect()),
        id,
    }
}

#[test]
fn decode_known_commands() {
    assert_eq!(
        decode_request(line("Download", Some(vec!["https://a/x"]), None)),
        Ok(Request::Download(vec!["https://a/x".to_string()]))
    );
    assert_eq!(decode_request(line("Download", None, None)), Ok(Request::Download(vec![])));
    assert_eq!(decode_request(line("Pause", None, Some(3))), Ok(Request::Pause(3)));
    assert_eq!(decode_request(line("Resume", None, Some(1))), Ok(Request::Resume(1)));
    assert_eq!(decode_request(line("Cancel", None, Some(2))), Ok(Request::Cancel(2)));
    assert_eq!(decode_request(line("List", None, None)), Ok(Request::List));
}

#[test]
fn decode_rejects_bad_lines() {
    assert_eq!(
        decode_request(line("Pause", None, None)),
        Err(ProtocolError::MissingId)
    );
    assert_eq!(
        decode_request(line("Cancel", Some(vec!["x"]), None)),
        Err(ProtocolError::MissingId)
    );
    assert_eq!(
        decode_request(line("download", None, None)),
        Err(ProtocolError::UnknownCommand)
    );
    assert_eq!(decode_request(line("", None, Some(1))), Err(ProtocolError::UnknownCommand));
}

#[test]
fn command_values_of_client_commands() {
    let c = command_value(Commands::Download { urls: vec!["https://a/x".to_string()] }).unwrap();
    assert_eq!(c.command, "Download");
    assert_eq!(c.urls, Some(vec!["https://a/x".to_string()]));
    assert_eq!(c.id, None);
    let c = command_value(Commands::Pause { id: 4 }).unwrap();
    assert_eq!((c.command.as_str(), c.urls, c.id), ("Pause", None, Some(4)));
    let c = command_value(Commands::Resume { id: 5 }).unwrap();
    assert_eq!((c.command.as_str(), c.urls, c.id), ("Resume", None, Some(5)));
    let c = command_value(Commands::Cancel { id: 6 }).unwrap();
    assert_eq!((c.command.as_str(), c.urls, c.id), ("Cancel", None, Some(6)));
    let c = command_value(Commands::List).unwrap();
    assert_eq!((c.command.as_str(), c.urls, c.id), ("List", None, None));
    assert!(matches!(
        command_value(Commands::Download { urls: vec![] }),
        Err(ProtocolError::NoUrls)
    ));
}
