use idmail::api::{AddyIoRequest, SimpleLoginRequest};

#[test]
fn addy_io_requested_domain_choices() {
    let empty = AddyIoRequest { domain: "".to_string(), description: None };
    assert_eq!(empty.requested_domain(), None);

    let wildcard = AddyIoRequest {
        domain: "random".to_string(),
        description: Some("note".to_string()),
    };
    assert_eq!(wildcard.requested_domain(), None);

    let fixed = AddyIoRequest { domain: "example.com".to_string(), description: None };
    assert_eq!(fixed.requested_domain(), Some("example.com".to_string()));
}

#[test]
fn simple_login_request_carries_note() {
    let req = SimpleLoginRequest { note: "for the newsletter".to_string() };
    assert_eq!(req.note, "for the newsletter");
}
