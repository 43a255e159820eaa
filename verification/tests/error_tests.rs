use rusty_stern::Errors;

#[test]
fn messages_quote_their_payload() {
    assert_eq!(Errors::Validation(String::from("bad value")).message(), "`bad value`");
    assert_eq!(Errors::LogError(String::from("stream died")).message(), "`stream died`");
    assert_eq!(Errors::StdErr(String::from("tty gone")).message(), "`tty gone`");
    assert_eq!(Errors::Other(String::from("misc")).message(), "`misc`");
}

#[test]
fn kubernetes_message_names_the_operation() {
    let e = Errors::Kubernetes(String::from("get pods list on namespace dev"), String::from("401"));
    assert_eq!(e.message(), "api failled for `get pods list on namespace dev`, detail: `401`");
}
