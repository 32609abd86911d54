use fwp::error::ApiError;
use fwp::mail::{
    default_page, default_page_size, delete_messages, get_body, get_header, is_envelope_exec,
    isdate_exec, mailbox_path, page_indices, parse_headers, parse_summary, replace_message,
    set_message_read, split_mbox, status_check_ok, valid_user,
};

const MSG1: &str = "From alice@example.org Mon Jan  1 23:59:59 2001\nFrom: Alice <alice@example.org>\nTo: bob\nSubject: Hello\n world\nDate: Mon, 1 Jan 2001\nStatus: RO\n\nBody line 1\n";
const MSG2: &str = "From bob Tue Feb  2 10:00:00 2021\nSubject: Second\n\nHi\n";

fn mbox() -> String {
    format!("{MSG1}{MSG2}")
}

#[test]
fn date_templates() {
    assert!(isdate_exec("Mon Jan  1 23:59:59 2001"));
    assert!(isdate_exec("Mon Jan 12 23:59 PST 2001"));
    assert!(isdate_exec("Mon Jan  1 23:59:59 2001 -0800"));
    assert!(!isdate_exec("Jan 1 2001"));
    assert!(!isdate_exec("mon Jan  1 23:59:59 2001"));
}

#[test]
fn envelope_lines() {
    assert!(is_envelope_exec("From alice@example.org Mon Jan  1 23:59:59 2001"));
    assert!(is_envelope_exec("From Mon Jan  1 23:59:59 2001"));
    assert!(is_envelope_exec("From bob tty1 Mon Jan  1 23:59 2001"));
    assert!(!is_envelope_exec("From: Alice"));
    assert!(!is_envelope_exec("From bob"));
    assert!(!is_envelope_exec("From bob yesterday"));
}

#[test]
fn split_counts_unread_and_keeps_text() {
    let text = format!("junk before\n{}", mbox());
    let mb = split_mbox(&text);
    assert_eq!(mb.preamble, "junk before\n");
    assert_eq!(mb.messages, vec![MSG1.to_string(), MSG2.to_string()]);
    assert_eq!(mb.unread, 1);
    assert_eq!(format!("{}{}", mb.preamble, mb.messages.concat()), text);
}

#[test]
fn split_empty_mailbox() {
    let mb = split_mbox("");
    assert_eq!(mb.preamble, "");
    assert!(mb.messages.is_empty());
    assert_eq!(mb.unread, 0);
}

#[test]
fn summary_fields() {
    let (from, to, subject, date, read) = parse_summary(MSG1);
    assert_eq!(from, "Alice <alice@example.org>");
    assert_eq!(to, "bob");
    assert_eq!(subject, "Hello world");
    assert_eq!(date, "Mon, 1 Jan 2001");
    assert!(read);
    let (_, _, subject2, _, read2) = parse_summary(MSG2);
    assert_eq!(subject2, "Second");
    assert!(!read2);
}

#[test]
fn headers_and_body() {
    let headers = parse_headers(MSG1);
    assert_eq!(headers.len(), 5);
    assert_eq!(headers[2], ("Subject".to_string(), "Hello\nworld".to_string()));
    assert_eq!(get_header(&headers, "subject"), "Hello\nworld");
    assert_eq!(get_header(&headers, "STATUS"), "RO");
    assert_eq!(get_header(&headers, "cc"), "");
    assert_eq!(get_body(MSG1), "Body line 1");
    assert_eq!(get_body(MSG2), "Hi");
}

#[test]
fn mark_read_and_unread() {
    assert!(status_check_ok(MSG2));
    assert_eq!(
        set_message_read(MSG2, true),
        "From bob Tue Feb  2 10:00:00 2021\nSubject: Second\nStatus: R\n\nHi\n"
    );
    assert_eq!(set_message_read(MSG2, false), MSG2);
    let unread = set_message_read(MSG1, false);
    assert!(unread.contains("\nStatus: O\n"));
    assert_eq!(set_message_read(MSG1, true), MSG1);
    assert_eq!(
        set_message_read("From x Mon Jan  1 23:59 2001\nStatus: O", true),
        "From x Mon Jan  1 23:59 2001\nStatus: RO"
    );
}

#[test]
fn status_check_refuses_split_character() {
    assert!(!status_check_ok("From x Mon Jan  1 23:59 2001\né\u{e9}\u{e9}\u{e9}\u{e9}\n\nbody"));
    assert!(status_check_ok("From x Mon Jan  1 23:59 2001\n\nééééé"));
}

#[test]
fn delete_and_replace() {
    let mb = split_mbox(&mbox());
    assert_eq!(delete_messages(&mb, &vec![0]), MSG2);
    assert_eq!(delete_messages(&mb, &vec![0, 1]), "");
    assert_eq!(delete_messages(&mb, &vec![]), mbox());
    assert_eq!(replace_message(&mb, 1, "X"), format!("{MSG1}X"));
}

#[test]
fn pages_newest_first() {
    assert_eq!(page_indices(5, 1, 2), (1, 2, vec![4, 3]));
    assert_eq!(page_indices(5, 3, 2), (3, 2, vec![0]));
    assert_eq!(page_indices(5, 4, 2), (4, 2, vec![]));
    assert_eq!(page_indices(5, 0, 0), (1, 1, vec![4]));
    assert_eq!(page_indices(3, 1, 1000).1, 500);
    assert_eq!(default_page(), 1);
    assert_eq!(default_page_size(), 50);
}

#[test]
fn users_and_paths() {
    assert!(valid_user("bob.smith-2_x").is_ok());
    assert!(matches!(valid_user("bad user"), Err(ApiError::BadRequest(m)) if m == "invalid username"));
    assert!(matches!(valid_user(""), Err(ApiError::BadRequest(_))));
    assert_eq!(mailbox_path("bob"), "/var/mail/bob");
}

#[test]
fn marking_twice_is_marking_once() {
    let msgs = [
        "From a@b Mon Jan  1 00:00:00 2024\nSubject: hi\n\nbody\n",
        "From a@b Mon Jan  1 00:00:00 2024\nStatus: O\nSubject: hi\n\nbody R\n",
        "From a@b Mon Jan  1 00:00:00 2024\nstatus: RO\n\nStatus: R in the body\n",
        "From a@b\nSubject: no body",
        "",
    ];
    for m in msgs {
        for read in [true, false] {
            let once = set_message_read(m, read);
            assert_eq!(set_message_read(&once, read), once, "{m:?} {read}");
        }
    }
    assert_eq!(
        set_message_read("From a@b\nStatus: RO\n\nx\n", false),
        "From a@b\nStatus: O\n\nx\n"
    );
}

#[test]
fn marking_keeps_envelope_and_body() {
    let m = "From a@b\nSubject: s\nstatus: RO\n\nbody line R\nStatus: R\n";
    let unread = set_message_read(m, false);
    assert_eq!(unread, "From a@b\nSubject: s\nStatus: O\n\nbody line R\nStatus: R\n");
    let read = set_message_read("From a@b\nSubject: s\n\nbody\n", true);
    assert_eq!(read, "From a@b\nSubject: s\nStatus: R\n\nbody\n");
    let headers_only = set_message_read("From a@b\nSubject: s", true);
    assert_eq!(headers_only, "From a@b\nSubject: s\nStatus: R");
}
