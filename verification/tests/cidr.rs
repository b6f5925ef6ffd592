use iran_route::cidr::{load_cidrs, Cidr};
use iran_route::ipv4::{format_ipv4, Ipv4};

fn cidr(a: u8, b: u8, c: u8, d: u8, prefix_len: u8) -> Cidr {
    Cidr { ip: Ipv4 { a, b, c, d }, prefix_len }
}

#[test]
fn loads_blocks_in_order() {
    let text = "# RIPE NCC\n2.57.3.0/24\r\n\n  185.167.72.0/22  \n#5.0.0.0/8\n10.0.0.0/8";
    assert_eq!(
        load_cidrs(text),
        vec![cidr(2, 57, 3, 0, 24), cidr(185, 167, 72, 0, 22), cidr(10, 0, 0, 0, 8)]
    );
}

#[test]
fn skips_lines_that_hold_no_block() {
    let text = "2.57.3.0\n2.57.3.0/\n/24\n2.57.3/24\n2.57.3.0/256\n2.57.3.0/24/8\n2.57.3.0 /24\nfoo/24\n2.57.3.0/ 24\n2.57.3.0/24 # x\n  # 1.2.3.4/5\n \t \n";
    assert_eq!(load_cidrs(text), vec![]);
    assert_eq!(load_cidrs(""), vec![]);
}

#[test]
fn takes_prefixes_as_they_are_written() {
    assert_eq!(load_cidrs("1.2.3.4/255"), vec![cidr(1, 2, 3, 4, 255)]);
    assert_eq!(load_cidrs("1.2.3.4/+08"), vec![cidr(1, 2, 3, 4, 8)]);
    assert_eq!(load_cidrs("0.0.0.0/0"), vec![cidr(0, 0, 0, 0, 0)]);
}

#[test]
fn a_written_database_is_loaded_back() {
    let mut list = Vec::new();
    let mut text = String::new();
    for i in 0..1740u32 {
        let c = cidr((i / 256) as u8, (i % 256) as u8, (i % 7) as u8, 0, (i % 33) as u8);
        text.push_str(&format!("{}/{}\n", format_ipv4(c.ip), c.prefix_len));
        list.push(c);
    }
    assert_eq!(load_cidrs(&text), list);
}

#[test]
fn parts_of_a_database_load_apart() {
    let a = "1.0.0.0/8\n# x\n";
    let b = "2.0.0.0/8\n";
    let mut both = load_cidrs(a);
    both.extend(load_cidrs(b));
    assert_eq!(load_cidrs(&format!("{}{}", a, b)), both);
    assert_eq!(load_cidrs(&format!("{}# more\n{}", a, b)), both);
}
