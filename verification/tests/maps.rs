use tf2_imgui_rs::utils::module::maps::{
    find_closest_map, maps_in_order, parse_proc_maps, MapsError, MemoryMap,
};

const LIBC_LINE: &str = "7f1c2a600000-7f1c2a628000 r--p 00000000 08:01 1048602                    /usr/lib/x86_64-linux-gnu/libc.so.6";

#[test]
fn from_line_reads_range_and_name() {
    let (map, name) = MemoryMap::from_line(LIBC_LINE).unwrap();
    assert_eq!(map.start, 0x7f1c2a600000);
    assert_eq!(map.size, 0x28000);
    assert_eq!(map.end(), 0x7f1c2a628000);
    assert_eq!(name, "/usr/lib/x86_64-linux-gnu/libc.so.6");
}

#[test]
fn from_line_keeps_spaces_inside_name() {
    let (map, name) = MemoryMap::from_line("10-20 rw-p 0 00:00 0   [anon: my region] ").unwrap();
    assert_eq!(map.start, 0x10);
    assert_eq!(map.size, 0x10);
    assert_eq!(name, "[anon: my region] ");
}

#[test]
fn from_line_accepts_upper_case_and_plus_sign() {
    let (map, _) = MemoryMap::from_line("+AbC-+aBf0 r 0 0:0 0 x").unwrap();
    assert_eq!(map.start, 0xabc);
    assert_eq!(map.size, 0xabf0 - 0xabc);
}

#[test]
fn from_line_empty_range_is_allowed() {
    let (map, _) = MemoryMap::from_line("ff-ff r 0 0:0 0 x").unwrap();
    assert_eq!(map.start, 0xff);
    assert_eq!(map.size, 0);
}

#[test]
fn from_line_reports_each_missing_delimiter() {
    assert_eq!(MemoryMap::from_line("nodash").unwrap_err(), MapsError::FindBase);
    assert_eq!(MemoryMap::from_line("10-20").unwrap_err(), MapsError::FindCeiling);
    assert_eq!(MemoryMap::from_line("10-20 r-xp").unwrap_err(), MapsError::FindPermissions);
    assert_eq!(MemoryMap::from_line("10-20 r-xp 0").unwrap_err(), MapsError::FindOffset);
    assert_eq!(MemoryMap::from_line("10-20 r-xp 0 08").unwrap_err(), MapsError::FindDevMajor);
    assert_eq!(MemoryMap::from_line("10-20 r-xp 0 08:01").unwrap_err(), MapsError::FindDevMinor);
    assert_eq!(MemoryMap::from_line("10-20 r-xp 0 08:01 12").unwrap_err(), MapsError::FindInode);
    assert_eq!(MemoryMap::from_line("10-20 r-xp 0 08:01 12    ").unwrap_err(), MapsError::NoName);
    assert_eq!(MemoryMap::from_line("10-20 r-xp 0 08:01 12 ").unwrap_err(), MapsError::NoName);
    assert_eq!(MemoryMap::from_line("").unwrap_err(), MapsError::FindBase);
}

#[test]
fn from_line_reports_bad_numbers() {
    assert_eq!(MemoryMap::from_line("zz-20 r 0 0:0 0 n").unwrap_err(), MapsError::ParseBase);
    assert_eq!(MemoryMap::from_line("-20 r 0 0:0 0 n").unwrap_err(), MapsError::ParseBase);
    assert_eq!(MemoryMap::from_line("+-20 r 0 0:0 0 n").unwrap_err(), MapsError::ParseBase);
    assert_eq!(MemoryMap::from_line("10-2g r 0 0:0 0 n").unwrap_err(), MapsError::ParseCeiling);
    assert_eq!(MemoryMap::from_line("10- r 0 0:0 0 n").unwrap_err(), MapsError::ParseCeiling);
    assert_eq!(
        MemoryMap::from_line("10000000000000000-20 r 0 0:0 0 n").unwrap_err(),
        MapsError::ParseBase
    );
    // a missing delimiter is reported before a bad base
    assert_eq!(MemoryMap::from_line("zz-20 r 0 0:0 0").unwrap_err(), MapsError::FindInode);
}

#[test]
fn from_line_largest_value() {
    let (map, _) = MemoryMap::from_line("0-ffffffffffffffff r 0 0:0 0 n").unwrap();
    assert_eq!(map.start, 0);
    assert_eq!(map.size, usize::MAX);
}

const BUFFER: &str = "\
55d0e1c00000-55d0e1c02000 r--p 00000000 08:01 393261                     /usr/bin/game
7f0000000000-7f0000001000 r--p 00000000 08:01 100                        /usr/lib/libSDL2-2.0.so.0.2800.5
7f0000001000-7f0000080000 r-xp 00001000 08:01 100                        /usr/lib/libSDL2-2.0.so.0.2800.5
7ffd00000000-7ffd00021000 rw-p 00000000 00:00 0                          [stack]
7f0000090000-7f00000a0000 rw-p 00000000 00:00 0
55d0e1c02000-55d0e1c03000 r-xp 00002000 08:01 393261                     /usr/bin/game
7f1000000000-7f1000001000 r--p 00000000 08:01 7 /last/line/without/newline";

#[test]
fn parse_proc_maps_groups_by_name_in_line_order() {
    assert!(maps_in_order(BUFFER));
    let maps = parse_proc_maps(BUFFER);
    assert_eq!(maps.len(), 3);
    let game = maps.get("/usr/bin/game").unwrap();
    assert_eq!(game.len(), 2);
    assert_eq!(game[0].start, 0x55d0e1c00000);
    assert_eq!(game[1].start, 0x55d0e1c02000);
    assert_eq!(game[1].size, 0x1000);
    let sdl = maps.get("/usr/lib/libSDL2-2.0.so.0.2800.5").unwrap();
    assert_eq!(sdl.len(), 2);
    assert_eq!(sdl[0].end(), sdl[1].start);
    assert_eq!(maps.get("[stack]").unwrap().len(), 1);
    // the text after the last newline is not a line
    assert!(maps.get("/last/line/without/newline").is_none());
}

#[test]
fn parse_proc_maps_empty_and_unterminated() {
    assert_eq!(parse_proc_maps("").len(), 0);
    assert_eq!(parse_proc_maps(LIBC_LINE).len(), 0);
    let with_newline = format!("{}\n", LIBC_LINE);
    assert_eq!(parse_proc_maps(&with_newline).len(), 1);
}

#[test]
fn maps_in_order_detects_reversed_range() {
    assert!(!maps_in_order("20-10 r 0 0:0 0 n\n"));
    assert!(maps_in_order("20-10 r 0 0:0 0 n"));
    assert!(maps_in_order("zz-10 r 0 0:0 0 n\n"));
}

#[test]
fn find_closest_map_takes_matching_name_out() {
    let mut maps = parse_proc_maps(BUFFER);
    let (name, regions) = find_closest_map(&mut maps, "libSDL2-2.0.so").unwrap();
    assert_eq!(name, "/usr/lib/libSDL2-2.0.so.0.2800.5");
    assert_eq!(regions.len(), 2);
    assert_eq!(regions[1].start, 0x7f0000001000);
    assert_eq!(maps.len(), 2);
    assert!(maps.get("/usr/lib/libSDL2-2.0.so.0.2800.5").is_none());
    assert!(find_closest_map(&mut maps, "libSDL2-2.0.so").is_none());
    assert_eq!(maps.len(), 2);
}

#[test]
fn find_closest_map_without_match_leaves_maps() {
    let mut maps = parse_proc_maps(BUFFER);
    assert!(find_closest_map(&mut maps, "libGL").is_none());
    assert_eq!(maps.len(), 3);
}

#[test]
fn formatted_line_reads_back() {
    let (a, b) = (0x7ffd_1234_5000usize, 0x7ffd_1234_9000usize);
    let line = format!("{:x}-{:x} {} {} {}:{} {} {}", a, b, "r-xp", "00001000", "fd", "01", "4242", "/opt/game/bin/libx.so");
    let (map, name) = MemoryMap::from_line(&line).unwrap();
    assert_eq!(map.start, a);
    assert_eq!(map.size, b - a);
    assert_eq!(name, "/opt/game/bin/libx.so");
    let line = format!("{:x}-{:x} {} {} {}:{} {} {}", 0usize, usize::MAX, "p", "o", "a", "b", "i", "n");
    let (map, _) = MemoryMap::from_line(&line).unwrap();
    assert_eq!(map.start, 0);
    assert_eq!(map.size, usize::MAX);
}

#[test]
fn middle_fields_are_ignored() {
    let (map, name) = MemoryMap::from_line("1000-2000 x y z:w v f").unwrap();
    assert_eq!(map.start, 0x1000);
    assert_eq!(map.size, 0x1000);
    assert_eq!(name, "f");
    let (other, other_name) = MemoryMap::from_line("1000-2000 rwxp 0000ffff 08:01 99999 f").unwrap();
    assert_eq!((other.start, other.size, other_name), (map.start, map.size, name));
}

#[test]
fn every_readable_line_in_one_vector() {
    let maps = parse_proc_maps(BUFFER);
    let names = [
        "/usr/bin/game",
        "/usr/lib/libSDL2-2.0.so.0.2800.5",
        "[stack]",
    ];
    let total: usize = names.iter().map(|n| maps.get(n).unwrap().len()).sum();
    // six terminated lines, of which the anonymous one has no name
    assert_eq!(total, 5);
    assert_eq!(maps.len(), names.len());
}

#[test]
fn concatenated_files_merge() {
    let first = "10-20 r 0 0:0 0 a\n20-30 r 0 0:0 0 b\n";
    let second = "30-40 r 0 0:0 0 a\n";
    let both = format!("{}{}", first, second);
    let maps = parse_proc_maps(&both);
    let a = maps.get("a").unwrap();
    assert_eq!(a.len(), 2);
    assert_eq!((a[0].start, a[1].start), (0x10, 0x30));
    assert_eq!(maps.get("b").unwrap().len(), 1);
}

#[test]
fn unreadable_line_is_skipped() {
    let with = parse_proc_maps("10-20 r 0 0:0 0 a\nnot a maps line\n30-40 r 0 0:0 0 a\n");
    let without = parse_proc_maps("10-20 r 0 0:0 0 a\n30-40 r 0 0:0 0 a\n");
    assert_eq!(with.len(), without.len());
    let (x, y) = (with.get("a").unwrap(), without.get("a").unwrap());
    assert_eq!(x.len(), y.len());
    assert_eq!((x[0].start, x[1].start), (y[0].start, y[1].start));
}
