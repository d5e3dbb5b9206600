use pbr::{Buffer, ProgressBar, Terminal, TextOut, Units};
use std::time::Duration;

fn output(pb: &ProgressBar<Buffer>) -> String {
    pb.handle().contents().to_owned()
}

/// A bar on a buffer that shows only the boxes named, at a fixed width.
fn quiet_bar(total: u64, width: usize) -> ProgressBar<Buffer> {
    let mut pb = ProgressBar::on(Buffer::new(), total);
    pb.show_bar = false;
    pb.show_speed = false;
    pb.show_percent = false;
    pb.show_counter = false;
    pb.show_time_left = false;
    pb.show_message = false;
    pb.set_width(Some(width));
    pb
}

#[test]
fn add() {
    let mut pb = ProgressBar::on(Buffer::new(), 10);
    pb.add(2);
    assert!(pb.current() == 2, "should add the given `n` to current");
    assert!(
        pb.add(2) == pb.current(),
        "add should return the current value"
    );
}

#[test]
fn inc() {
    let mut pb = ProgressBar::on(Buffer::new(), 10);
    pb.inc();
    assert!(pb.current() == 1, "should increment current by 1");
}

#[test]
fn format() {
    let fmt = "[~> ]";
    let mut pb = ProgressBar::on(Buffer::new(), 1);
    pb.format(fmt);
    assert!(pb.bar_format() == fmt);
}

#[test]
fn finish() {
    let mut pb = ProgressBar::on(Buffer::new(), 10);
    pb.finish();
    assert!(pb.current() == pb.total, "should set current to total");
    assert!(pb.is_finish, "should set is_finish to true");
}

#[test]
fn kb_fmt() {
    let kb = 1024f64;
    let mb = kb.powf(2f64);
    let gb = kb.powf(3f64);
    let tb = kb.powf(4f64);
    assert_eq!(pbr::text::kb_fmt(kb as u64), "1.00 KB");
    assert_eq!(pbr::text::kb_fmt(mb as u64), "1.00 MB");
    assert_eq!(pbr::text::kb_fmt(gb as u64), "1.00 GB");
    assert_eq!(pbr::text::kb_fmt(tb as u64), "1.00 TB");
}

#[test]
fn disable_speed_percent() {
    let mut pb = ProgressBar::on(Buffer::new(), 10);
    pb.show_speed = false;
    pb.show_percent = false;
    pb.set_width(Some(80));
    pb.add(2);
    assert_eq!(
        output(&pb),
        "\r2 / 10 [=============>-----------------------------------------------------] 0s ",
    );
}

#[test]
fn disable_speed_time_left() {
    let mut pb = ProgressBar::on(Buffer::new(), 10);
    pb.show_speed = false;
    pb.show_time_left = false;
    pb.set_width(Some(65));
    pb.add(1);
    assert_eq!(
        output(&pb),
        "\r1 / 10 [====>------------------------------------------] 10.00 % ",
    );
}

#[test]
fn disable_percent_time_left() {
    let mut pb = ProgressBar::on(Buffer::new(), 10);
    pb.show_percent = false;
    pb.show_time_left = false;
    pb.set_units(Units::Bytes);
    pb.set_width(Some(65));
    pb.draw();
    assert_eq!(
        output(&pb),
        "\r0 B / 10 B [---------------------------------------------] 0 B/s ",
    );
}

#[test]
fn disable_suffix() {
    let mut pb = ProgressBar::on(Buffer::new(), 10);
    pb.show_speed = false;
    pb.show_percent = false;
    pb.show_time_left = false;
    pb.set_units(Units::Bytes);
    pb.set_width(Some(65));
    pb.draw();
    assert_eq!(
        output(&pb),
        "\r0 B / 10 B [--------------------------------------------------]  ",
    );
}

#[test]
fn max_refresh_rate_finish() {
    let count = 500;
    let mut pb = ProgressBar::on(Buffer::new(), count);
    pb.format("╢▌▌░╟");
    pb.set_width(Some(80));
    pb.set_max_refresh_rate(Some(Duration::from_millis(100)));
    pb.show_speed = false;
    pb.show_time_left = false;
    pb.add(count / 2);
    pb.add(count / 2);
    let out = output(&pb);
    let mut split = out.trim_start_matches('\r').split('\r');
    assert_eq!(
        split.next(),
        Some("250 / 500 ╢▌▌▌▌▌▌▌▌▌▌▌▌▌▌▌▌▌▌▌▌▌▌▌▌▌▌▌▌▌▌░░░░░░░░░░░░░░░░░░░░░░░░░░░░░╟ 50.00 % ")
    );
    assert_eq!(
        split.next(),
        Some("500 / 500 ╢▌▌▌▌▌▌▌▌▌▌▌▌▌▌▌▌▌▌▌▌▌▌▌▌▌▌▌▌▌▌▌▌▌▌▌▌▌▌▌▌▌▌▌▌▌▌▌▌▌▌▌▌▌▌▌▌▌▌╟ 100.00 % ")
    );
}

#[test]
fn percent_is_rounded_to_two_decimals() {
    let mut pb = quiet_bar(3, 10);
    pb.show_percent = true;
    pb.set(1);
    assert_eq!(pb.render(10, 0), " 33.33 %  ");
    pb.set(2);
    assert_eq!(pb.render(10, 0), " 66.67 %  ");
    pb.set(3);
    assert_eq!(pb.render(10, 0), " 100.00 % ");
}

#[test]
fn percent_of_a_quarter() {
    let mut pb = quiet_bar(8, 0);
    pb.show_percent = true;
    pb.set(2);
    assert_eq!(pb.render(0, 0), " 25.00 %");
}

#[test]
fn inc_matches_add_one() {
    let mut a = quiet_bar(10, 40);
    let mut b = quiet_bar(10, 40);
    a.show_counter = true;
    b.show_counter = true;
    a.inc();
    b.add(1);
    assert_eq!(a.current(), b.current());
    assert_eq!(a.render(40, 5), b.render(40, 5));
}

#[test]
fn repeated_adds_match_one_add_of_the_sum() {
    let mut a = ProgressBar::on(Buffer::new(), 100);
    let mut b = ProgressBar::on(Buffer::new(), 100);
    for n in [3u64, 7, 11, 19] {
        a.add(n);
    }
    b.add(40);
    assert_eq!(a.current(), 40);
    assert_eq!(a.render(70, 1_000_000_000), b.render(70, 1_000_000_000));
}

#[test]
fn add_saturates() {
    let mut pb = ProgressBar::on(Buffer::new(), 10);
    pb.set(u64::MAX - 1);
    assert_eq!(pb.add(5), u64::MAX);
}

#[test]
fn finish_draws_once_more_even_when_throttled() {
    let mut pb = quiet_bar(10, 20);
    pb.show_counter = true;
    pb.set_max_refresh_rate(Some(Duration::from_secs(3600)));
    pb.add(1);
    pb.add(1);
    let before = output(&pb);
    assert_eq!(before.matches('\r').count(), 1);
    pb.finish();
    assert_eq!(pb.current(), 10);
    assert!(pb.is_finish);
    let after = output(&pb);
    assert_eq!(after.matches('\r').count(), 2);
    assert!(after.ends_with(&format!("\r{:<20}", "10 / 10")));
}

#[test]
fn finish_keeps_a_count_past_the_total() {
    let mut pb = ProgressBar::on(Buffer::new(), 10);
    pb.set(15);
    pb.finish();
    assert_eq!(pb.current(), 15);
    assert!(pb.is_finish);
}

#[test]
fn throttle_skips_close_draws() {
    let mut pb = quiet_bar(10, 5);
    pb.show_counter = true;
    pb.set_max_refresh_nanos(Some(100));
    let t = 1_000_000_000_000_000;
    pb.draw_at(t, 5, false);
    pb.draw_at(t + 50, 5, false);
    assert_eq!(output(&pb).matches('\r').count(), 1);
    pb.draw_at(t + 100, 5, false);
    assert_eq!(output(&pb).matches('\r').count(), 2);
    pb.draw_at(t + 120, 5, true);
    assert_eq!(output(&pb).matches('\r').count(), 3);
}

#[test]
fn byte_units() {
    assert_eq!(pbr::text::kb_fmt(0), "0 B");
    assert_eq!(pbr::text::kb_fmt(1000), "1000 B");
    assert_eq!(pbr::text::kb_fmt(1023), "1023 B");
    assert_eq!(pbr::text::kb_fmt(1536), "1.50 KB");
    assert_eq!(pbr::text::kb_fmt(3 * 1024 * 1024 + 10 * 1024), "3.01 MB");
}

#[test]
fn bar_only_fills_the_width() {
    for w in [5usize, 10, 40, 80, 123] {
        let mut pb = quiet_bar(10, w);
        pb.show_bar = true;
        pb.set(3);
        let line = pb.render(w, 0);
        assert_eq!(line.len(), w);
        pb.format("╢▌▌░╟");
        let line = pb.render(w, 0);
        assert_eq!(line.chars().count(), w);
    }
}

#[test]
fn scenario_ten_by_twos() {
    let mut pb = ProgressBar::on(Buffer::new(), 10);
    pb.show_speed = false;
    pb.show_time_left = false;
    pb.set_width(Some(40));
    for _ in 0..5 {
        pb.add(2);
    }
    pb.finish();
    let out = output(&pb);
    let last = out.trim_end_matches('\r').rsplit('\r').next().unwrap();
    assert_eq!(last, format!("10 / 10 [{}] 100.00 % ", "=".repeat(20)));
}

#[test]
fn zero_total_shows_zero_percent() {
    let mut pb = ProgressBar::on(Buffer::new(), 0);
    pb.show_speed = false;
    pb.set_width(Some(40));
    pb.add(5);
    pb.draw();
    let out = output(&pb);
    assert!(out.contains("0.00 %"));
    assert_eq!(pb.render(40, 0), format!("5 / 0 [{}] 0.00 % ", "=".repeat(24)));
}

#[test]
fn speed_and_time_left() {
    let mut pb = quiet_bar(100, 0);
    pb.show_speed = true;
    pb.show_time_left = true;
    pb.set(10);
    assert_eq!(pb.render(0, 10_000_000_000), " 1.00/s 2m");
    pb.set(50);
    assert_eq!(pb.render(0, 10_000_000_000), " 5.00/s 10s");
    pb.set_units(Units::Bytes);
    pb.set(100);
    assert_eq!(pb.render(0, 0), " 93.13 GB/s");
}

#[test]
fn message_and_tick() {
    let mut pb = quiet_bar(10, 0);
    pb.show_message = true;
    pb.message("line one\nline\rtwo ");
    pb.tick_format("ab");
    assert!(pb.show_tick);
    assert_eq!(pb.render(0, 0), "line one line two a  ");
    pb.tick();
    assert_eq!(pb.render(0, 0), "line one line two b  ");
    pb.tick();
    assert_eq!(pb.render(0, 0), "line one line two a  ");
}

#[test]
fn default_tick_format_keeps_tick_hidden() {
    let mut pb = ProgressBar::on(Buffer::new(), 10);
    pb.tick_format("\\|/-");
    assert!(!pb.show_tick);
}

#[test]
fn short_format_is_ignored() {
    let mut pb = ProgressBar::on(Buffer::new(), 10);
    pb.format("<#>");
    assert_eq!(pb.bar_format(), "[=>-]");
}

#[test]
fn finish_print_replaces_the_bar() {
    let mut pb = quiet_bar(4, 8);
    pb.finish_print("done");
    assert!(output(&pb).ends_with("\rdone    "));
}

#[test]
fn finish_println_writes_below() {
    let mut pb = quiet_bar(4, 8);
    pb.finish_println("done");
    assert!(output(&pb).ends_with("\ndone"));
}

#[test]
fn write_counts_bytes() {
    let mut pb = ProgressBar::on(Buffer::new(), 100);
    assert_eq!(pb.write(b"hello"), 5);
    assert_eq!(pb.current(), 5);
}

#[test]
fn tick_before_start() {
    let mut pb = ProgressBar::on(Buffer::new(), 100);
    pb.tick_format("▏▎▍▌▋▊▉██▉▊▋▌▍▎▏");
    pb.tick();
    for _ in 0..100 {
        pb.tick();
    }
    for _ in 0..100 {
        pb.inc();
    }
    assert_eq!(pb.current(), 100);
}

#[test]
fn cursor_up() {
    assert_eq!(pbr::move_cursor_up(3), "\x1B[3A");
    assert_eq!(pbr::move_cursor_up(12), "\x1B[12A");
}

struct Screen {
    text: String,
    cols: Option<usize>,
}

impl TextOut for Screen {
    fn put(&mut self, text: &str) {
        self.text.push_str(text);
    }

    fn columns(&self) -> Option<usize> {
        self.cols
    }
}

#[test]
fn terminal_width_comes_from_the_output() {
    let screen = Screen { text: String::new(), cols: Some(30) };
    let mut pb = ProgressBar::on(Terminal::new(screen), 10);
    pb.show_speed = false;
    pb.show_time_left = false;
    pb.add(5);
    let text = &pb.handle().get_ref().text;
    assert_eq!(text.chars().count(), 31);
    assert!(text.starts_with("\r5 / 10 ["));
}

#[test]
fn width_defaults_to_eighty() {
    let mut pb = ProgressBar::on(Buffer::new(), 10);
    pb.add(5);
    assert_eq!(output(&pb).chars().count(), 81);
}

#[test]
fn draw_reports_its_clock_reading() {
    let mut pb = ProgressBar::on(Buffer::new(), 10);
    let first = pb.draw();
    let second = pb.draw();
    assert!(second >= first);
}
