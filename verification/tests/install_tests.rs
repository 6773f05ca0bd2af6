use reeos::install::{download_line, progress_frame};

#[test]
fn progress_frames() {
    assert_eq!(progress_frame(0), b"\r[>                   ] 0% | ".to_vec());
    assert_eq!(progress_frame(1), b"\r[=>                  ] 5% / ".to_vec());
    assert_eq!(progress_frame(7), b"\r[=======>            ] 35% \\ ".to_vec());
    assert_eq!(progress_frame(20), b"\r[====================] 100% | ".to_vec());
}

#[test]
fn download_lines() {
    assert_eq!(
        download_line(1),
        b"\x1B[1A\x1B[2KDownloading: [==>                  ] 10%\n".to_vec()
    );
    assert_eq!(
        download_line(10),
        b"\x1B[1A\x1B[2KDownloading: [====================>] 100%\n".to_vec()
    );
}
