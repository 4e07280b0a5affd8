use shellui::format::{Message, ObjectFormatter};

struct Simple {
    id: String,
    label: String,
    coordinates: Coordinates,
    value: i32,
    _ignored: bool,
}

impl Simple {
    pub fn new(id: String, label: String, coordinates: Coordinates, value: i32) -> Self {
        Self {
            id,
            label,
            coordinates,
            value,
            _ignored: true,
        }
    }
}

impl ObjectFormatter for Simple {
    type Header = &'static str;
    type Mode = &'static str;
    type Output = Message;

    fn headers(mode: Option<&'static str>) -> Vec<&'static str> {
        let mut headers = vec!["Id", "Label"];
        headers.extend(Coordinates::headers(mode));
        if mode == Some("special") {
            headers.push("Value");
        }
        headers
    }

    fn format_value(&self, mode: Option<&'static str>, header: &&'static str) -> Message {
        if *header == "Id" {
            Message::new(self.id.as_str())
        } else if *header == "Label" {
            Message::new(self.label.as_str())
        } else if Coordinates::headers(mode).contains(header) {
            self.coordinates.format_value(mode, header)
        } else if *header == "Value" {
            Message::new(self.value)
        } else {
            Message::new("")
        }
    }
}

fn format_port(port: &u32) -> Message {
    if *port < 1000 {
        Message::success(*port)
    } else {
        Message::error(*port)
    }
}

struct Coordinates {
    host: String,
    port: u32,
}

impl Coordinates {
    pub fn new(host: String, port: u32) -> Self {
        Self { host, port }
    }
}

impl ObjectFormatter for Coordinates {
    type Header = &'static str;
    type Mode = &'static str;
    type Output = Message;

    fn headers(_mode: Option<&'static str>) -> Vec<&'static str> {
        vec!["Host", "Port"]
    }

    fn format_value(&self, _mode: Option<&'static str>, header: &&'static str) -> Message {
        if *header == "Host" {
            Message::success(self.host.as_str())
        } else if *header == "Port" {
            format_port(&self.port)
        } else {
            Message::new("")
        }
    }
}

struct Tuple(String, String);

impl ObjectFormatter for Tuple {
    type Header = &'static str;
    type Mode = &'static str;
    type Output = Message;

    fn headers(_mode: Option<&'static str>) -> Vec<&'static str> {
        vec!["Id", "Label"]
    }

    fn format_value(&self, _mode: Option<&'static str>, header: &&'static str) -> Message {
        if *header == "Id" {
            Message::new(self.0.as_str())
        } else if *header == "Label" {
            Message::new(self.1.as_str())
        } else {
            Message::new("")
        }
    }
}

#[test]
fn test_derive() {
    let headers = vec![
        "Id".to_string(),
        "Label".to_string(),
        "Host".to_string(),
        "Port".to_string(),
    ];
    assert_eq!(Simple::default_headers(), headers);
    let headers_with_mode = vec![
        "Id".to_string(),
        "Label".to_string(),
        "Host".to_string(),
        "Port".to_string(),
        "Value".to_string(),
    ];
    assert_eq!(Simple::headers_with_mode("special"), headers_with_mode);

    let value = Simple::new(
        "id".to_string(),
        "label".to_string(),
        Coordinates::new("http://localhost".to_string(), 8888),
        123,
    );
    assert_eq!(value.format_value(None, &"Id"), Message::new("id"));
    assert_eq!(value.format_value(None, &"Label"), Message::new("label"));
    assert_eq!(
        value.format_value(None, &"Host"),
        Message::success("http://localhost")
    );
    assert_eq!(value.format_value(None, &"Port"), Message::error("8888"));
    assert_eq!(value.format_value(None, &"Value"), Message::new("123"));
}

#[test]
fn test_derive_tuple() {
    let headers = vec!["Id".to_string(), "Label".to_string()];
    assert_eq!(Tuple::default_headers(), headers);

    let value = Tuple("id".to_string(), "label".to_string());
    assert_eq!(value.format_value(None, &"Id"), Message::new("id"));
    assert_eq!(value.format_value(None, &"Label"), Message::new("label"));
}
