use denon_control::html::HttpResponse;

#[test]
fn create_valid_response() {
    let httpresponse = HttpResponse::default();
    httpresponse
        .status_line(123, "blub")
        .header("Length", "123")
        .header("Spam-value", "666")
        .body("aaaaaaaahhhhh");
}

#[test]
fn check_display() {
    let httpresponse = HttpResponse::default();
    let body = httpresponse
        .status_line(123, "blub")
        .header("Length", "123")
        .header("Spam-value", "666")
        .body("aaaaaaaahhhhh");

    assert_eq!(
        "(123, \"blub\") [(\"Length\", \"123\"), (\"Spam-value\", \"666\")] aaaaaaaahhhhh",
        body.display_string()
    );
}

#[test]
fn send_with_body() {
    let httpresponse = HttpResponse::default();
    httpresponse
        .status_line(123, "blub")
        .header("Length", "123")
        .header("Spam-value", "666")
        .body("aaaaaaaahhhhh")
        .send();
}

#[test]
fn send_with_status() {
    let httpresponse = HttpResponse::default();
    httpresponse.status_line(123, "blub").send();
}
