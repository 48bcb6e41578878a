use puzzles::{
    day01, day01_2, day02_2, day03_1, day03_2, day04_1, day04_2, day05_2, day06_1, day06_2,
    day07_1, day08_1, day08_2, day09_2, day11_1, day11_2, day13_1, day14_1, day15_1, day15_2,
    day18_1, day18_2,
};

#[test]
fn day01_test1() {
    let tc = vec!["1abc2", "pqr3stu8vwx", "a1b2c3d4e5f", "treb7uchet"];
    assert_eq!(day01::calculate_sum_calibrations(tc), 142);
}

#[test]
fn day01_1_test1() {
    let tc = vec!["1abc2", "pqr3stu8vwx", "a1b2c3d4e5f", "treb7uchet"];
    assert_eq!(day01::calculate_sum_calibrations(tc), 142);
}

#[test]
fn day01_2_test() {
    let input = vec![
        "two1nine",
        "eightwothree",
        "abcone2threexyz",
        "xtwone3four",
        "4nineeightseven2",
        "zoneight234",
        "7pqrstsixteen",
    ];
    assert_eq!(day01_2::solve(&input), 281);
}

#[test]
fn day02_2_test() {
    let games = "Game 1: 3 blue, 4 red; 1 red, 2 green, 6 blue; 2 green
Game 2: 1 blue, 2 green; 3 green, 4 blue, 1 red; 1 green, 1 blue
Game 3: 8 green, 6 blue, 20 red; 5 blue, 4 red, 13 green; 5 green, 1 red
Game 4: 1 green, 3 red, 6 blue; 3 green, 6 red; 3 green, 15 blue, 14 red
Game 5: 6 red, 1 blue, 3 green; 2 blue, 1 red, 2 green";
    assert_eq!(day02_2::solve(games), 2286);
}

#[test]
fn day03_1_test() {
    let engine = "467..114..
...*......
..35..633.
......#...
617*......
.....+.58.
..592.....
......755.
...$.*....
.664.598..";
    assert_eq!(day03_1::solve(engine), 4361);
}

#[test]
fn day03_2_test() {
    let content = "467..114..
...*......
..35..633.
......#...
617*......
.....+.58.
..592.....
......755.
...$.*....
.664.598..";
    assert_eq!(day03_2::solve(content), 467835);
}

#[test]
fn day04_1_test() {
    let content = "Card 1: 41 48 83 86 17 | 83 86  6 31 17  9 48 53
        Card 2: 13 32 20 16 61 | 61 30 68 82 17 32 24 19
        Card 3:  1 21 53 59 44 | 69 82 63 72 16 21 14  1
        Card 4: 41 92 73 84 69 | 59 84 76 51 58  5 54 83
        Card 5: 87 83 26 28 32 | 88 30 70 12 93 22 82 36
        Card 6: 31 18 13 56 72 | 74 77 10 23 35 67 36 11";
    assert_eq!(day04_1::solve(content), 13);
}

#[test]
fn day04_2_test() {
    let content = "Card 1: 41 48 83 86 17 | 83 86  6 31 17  9 48 53
            Card 2: 13 32 20 16 61 | 61 30 68 82 17 32 24 19
            Card 3:  1 21 53 59 44 | 69 82 63 72 16 21 14  1
            Card 4: 41 92 73 84 69 | 59 84 76 51 58  5 54 83
            Card 5: 87 83 26 28 32 | 88 30 70 12 93 22 82 36
            Card 6: 31 18 13 56 72 | 74 77 10 23 35 67 36 11";
    assert_eq!(day04_2::solve(content), 30);
}

#[test]
fn day05_2_test() {
    let content = "seeds: 79 14 55 13

seed-to-soil map:
50 98 2
52 50 48

soil-to-fertilizer map:
0 15 37
37 52 2
39 0 15

fertilizer-to-water map:
49 53 8
0 11 42
42 0 7
57 7 4

water-to-light map:
88 18 7
18 25 70

light-to-temperature map:
45 77 23
81 45 19
68 64 13

temperature-to-humidity map:
0 69 1
1 0 69

humidity-to-location map:
60 56 37
56 93 4";
    assert_eq!(day05_2::solve(content), 46);
}

#[test]
fn day06_1_test() {
    let content = "Time:      7  15   30
Distance:  9  40  200";
    assert_eq!(day06_1::solve(content), 288);
}

#[test]
fn day06_2_test() {
    let content = "Time:      7  15   30
Distance:  9  40  200";
    assert_eq!(day06_2::solve(content), 71503);
}

#[test]
fn day07_1_test() {
    let content = "32T3K 765
T55J5 684
KK677 28
KTJJT 220
QQQJA 483";
    assert_eq!(day07_1::solve(content), 6440);
}

#[test]
fn day08_1_test1() {
    let content = "RL

AAA = (BBB, CCC)
BBB = (DDD, EEE)
CCC = (ZZZ, GGG)
DDD = (DDD, DDD)
EEE = (EEE, EEE)
GGG = (GGG, GGG)
ZZZ = (ZZZ, ZZZ)";
    assert_eq!(day08_1::solve(content), 2);
}

#[test]
fn day08_1_test2() {
    let content = "LLR

AAA = (BBB, BBB)
BBB = (AAA, ZZZ)
ZZZ = (ZZZ, ZZZ)";
    assert_eq!(day08_1::solve(content), 6);
}

#[test]
fn day08_2_test() {
    let content = "LR

11A = (11B, XXX)
11B = (XXX, 11Z)
11Z = (11B, XXX)
22A = (22B, XXX)
22B = (22C, 22C)
22C = (22Z, 22Z)
22Z = (22B, 22B)
XXX = (XXX, XXX)";
    assert_eq!(day08_2::solve(content), 6);
}

#[test]
fn day09_2_test() {
    let content = "0 3 6 9 12 15
1 3 6 10 15 21
10 13 16 21 30 45";
    assert_eq!(day09_2::solve(content), 2);
}

#[test]
fn day11_1_test() {
    let content = "...#......
.......#..
#.........
..........
......#...
.#........
.........#
..........
.......#..
#...#.....";
    assert_eq!(day11_1::solve(content), 374);
}

#[test]
fn day11_2_test() {
    let content = "...#......
.......#..
#.........
..........
......#...
.#........
.........#
..........
.......#..
#...#.....";
    let multipliers = vec![2, 10, 100];
    let answers = vec![374, 1030, 8410];
    for (mult, ans) in multipliers.into_iter().zip(answers.into_iter()) {
        assert_eq!(day11_2::solve(content, mult), ans);
    }
}

#[test]
fn day13_1_test() {
    let content = "#.##..##.
..#.##.#.
##......#
##......#
..#.##.#.
..##..##.
#.#.##.#.

#...##..#
#....#..#
..##..###
#####.##.
#####.##.
..##..###
#....#..#";
    assert_eq!(day13_1::solve(content), 405);
}

#[test]
fn day14_1_test() {
    let content = "O....#....
O.OO#....#
.....##...
OO.#O....O
.O.....O#.
O.#..O.#.#
..O..#O..O
.......O..
#....###..
#OO..#....";
    assert_eq!(day14_1::solve(content), 136);
}

#[test]
fn day15_1_test() {
    assert_eq!(day15_1::solve("HASH"), 52);
}

#[test]
fn day15_2_test() {
    let content = "rn=1,cm-,qp=3,cm=2,qp-,pc=4,ot=9,ab=5,pc-,pc=6,ot=7";
    assert_eq!(day15_2::solve(content), 145);
}

#[test]
fn day18_1_test() {
    let content = "R 6 (#70c710)
D 5 (#0dc571)
L 2 (#5713f0)
D 2 (#d2c081)
R 2 (#59c680)
D 2 (#411b91)
L 5 (#8ceee2)
U 2 (#caa173)
L 1 (#1b58a2)
U 2 (#caa171)
R 2 (#7807d2)
U 3 (#a77fa3)
L 2 (#015232)
U 2 (#7a21e3)";
    assert_eq!(day18_1::solve(content), 62);
}

#[test]
fn day18_1_test_easy1() {
    let content = "R 2 (#70c710)
D 1 (#0dc571)
L 2 (#5713f0)
U 1 (#d2c081)";
    assert_eq!(day18_1::solve(content), 6);
}

#[test]
fn day18_1_test_easy2() {
    let content = "R 2 (#70c710)
D 1 (#0dc571)
L 1 (#0dc571)
D 1 (#0dc571)
L 1 (#0dc571)
U 2 (#d2c081)";
    assert_eq!(day18_1::solve(content), 8);
}

#[test]
fn test_easy3() {
    let content = "R 3 (#70c710)
D 1 (#0dc571)
L 2 (#0dc571)
D 1 (#0dc571)
L 1 (#0dc571)
U 2 (#d2c081)";
    assert_eq!(day18_1::solve(content), 10);
}

#[test]
fn day18_2_test() {
    let content = "R 6 (#70c710)
D 5 (#0dc571)
L 2 (#5713f0)
D 2 (#d2c081)
R 2 (#59c680)
D 2 (#411b91)
L 5 (#8ceee2)
U 2 (#caa173)
L 1 (#1b58a2)
U 2 (#caa171)
R 2 (#7807d2)
U 3 (#a77fa3)
L 2 (#015232)
U 2 (#7a21e3)";
    assert_eq!(day18_2::solve(content), 952408144115);
}
