use xyio::http::message::Response;

fn flat(iov: &[&[u8]]) -> Vec<u8> {
    iov.concat()
}

fn sample() -> Response {
    let mut response = Response::new();
    response.reset();
    response.set_status("HTTP/1.1 200 OK\r\n");
    response.add_header("A: 1\r\n");
    response.add_header("Bb: 22\r\n");
    response.write(b"\r\n");
    response.write(b"body");
    response
}

#[test]
fn a_new_response_has_only_a_status_line() {
    let response = Response::new();
    assert_eq!("HTTP/1.1 200 OK\r\n", response.code);
    assert_eq!(0, response.size);
    assert_eq!(0, response.nwritten);
    assert_eq!(vec![b"HTTP/1.1 200 OK\r\n" as &[u8]], response.segments());
}

#[test]
fn the_first_write_is_given_the_whole_response() {
    let response = sample();
    assert_eq!(
        b"HTTP/1.1 200 OK\r\nA: 1\r\nBb: 22\r\n\r\nbody".to_vec(),
        response.with(flat)
    );
    assert_eq!(response.size, response.with(flat).len());
    assert_eq!(4, response.with(|iov| iov.len()));
}

#[test]
fn a_write_that_ended_with_a_piece_is_resumed() {
    let mut response = sample();
    let whole = response.with(flat);
    for n in [17, 23, 31, 33, 37] {
        response.nwritten = n;
        assert_eq!(whole[n..].to_vec(), response.with(flat));
    }
}

#[test]
fn the_offset_of_a_cut_piece_is_taken_from_the_later_ones_too() {
    let mut response = sample();
    response.nwritten = 3;
    assert_eq!(
        vec![b"P/1.1 200 OK\r\n" as &[u8], b"1\r\n", b" 22\r\n", b"ody"],
        response.segments()
    );
    response.nwritten = 16;
    assert_eq!(vec![b"\n" as &[u8], b"body"], response.segments());
}

#[test]
fn an_offset_in_the_last_piece_loses_nothing() {
    let mut response = sample();
    response.nwritten = 34;
    assert_eq!(vec![b"ody" as &[u8]], response.segments());
}

#[test]
fn a_reset_forgets_everything() {
    let mut response = sample();
    response.nwritten = 5;
    response.set_status("HTTP/1.1 400 Bad Request\r\n");
    response.reset();
    assert_eq!(b"HTTP/1.1 200 OK\r\n".to_vec(), response.with(flat));
    assert_eq!(0, response.size);
    assert_eq!(0, response.nwritten);
}

#[test]
fn additions_are_counted() {
    let mut response = Response::new();
    response.set_status("HTTP/1.1 414 URI Too Long\r\n");
    assert_eq!(27, response.size);
    response.add_header("X: y\r\n");
    assert_eq!(33, response.size);
    response.write(&[0; 100]);
    assert_eq!(133, response.size);
    assert_eq!(133, response.with(flat).len());
}
