use pbr::{Buffer, PbIter, ProgressBar};
use std::time::Duration;

#[test]
fn simple_example() {
    let count = 5000;
    let mut pb = ProgressBar::on(Buffer::new(), count);
    pb.format("╢▌▌░╟");
    for _ in 0..count {
        pb.inc();
    }
    pb.finish_println("done!");
    assert_eq!(pb.current(), count);
    assert!(pb.handle().contents().ends_with("\ndone!"));
}

#[test]
fn custom_width_example() {
    let count = 500;
    let mut pb = ProgressBar::on(Buffer::new(), count);
    pb.set_width(Some(80));
    pb.format("╢▌▌░╟");
    for _ in 0..count {
        pb.inc();
    }
    pb.finish_println("done!");
    let out = pb.handle().contents();
    assert!(out.contains("500 / 500 ╢"));
}

#[test]
fn simple_iter_example() {
    let mut it = PbIter::on(Buffer::new(), 0..2000);
    let mut seen = 0;
    while let Some(_) = it.next() {
        seen += 1;
    }
    assert_eq!(seen, 2000);
}

#[test]
fn timeout_example() {
    let count = 10;
    let mut pb = ProgressBar::on(Buffer::new(), count * 20);
    pb.tick_format("▏▎▍▌▋▊▉██▉▊▋▌▍▎▏");
    pb.show_message = true;
    pb.inc();
    for _ in 0..count {
        for _ in 0..20 {
            pb.message("Waiting  : ");
            pb.tick();
        }
        for _ in 0..20 {
            pb.message("Connected: ");
            pb.inc();
        }
    }
    for _ in 0..10 {
        pb.message("Cleaning :");
        pb.tick();
    }
    pb.finish_println("done!");
    assert_eq!(pb.current(), count * 20 + 1);
}

#[test]
fn npm_bar() {
    let count = 30;
    let mut pb = ProgressBar::on(Buffer::new(), count * 5);
    pb.tick_format("\\|/-");
    pb.format("|#--|");
    pb.show_tick = true;
    pb.show_speed = false;
    pb.show_percent = false;
    pb.show_counter = false;
    pb.show_time_left = false;
    pb.set_width(Some(40));
    pb.inc();
    for _ in 0..count {
        for _ in 0..5 {
            pb.message("normalize -> thing ");
            pb.tick();
        }
        for _ in 0..5 {
            pb.message("fuzz -> tree       ");
            pb.inc();
        }
    }
    pb.finish_println("done!");
    let out = pb.handle().contents();
    assert!(out.contains("\rfuzz -> tree       "));
}

#[test]
fn final_redraw_max_refresh_rate() {
    let count = 500;
    let mut pb = ProgressBar::on(Buffer::new(), count);
    pb.format("╢▌▌░╟");
    pb.set_width(Some(80));
    pb.set_max_refresh_rate(Some(Duration::from_millis(100)));
    for _ in 0..count {
        pb.inc();
    }
    pb.finish_println("done!");
    let out = pb.handle().contents();
    let frames: Vec<&str> = out.split('\r').filter(|f| !f.is_empty()).collect();
    assert!(frames.last().unwrap().starts_with("500 / 500 "));
}
