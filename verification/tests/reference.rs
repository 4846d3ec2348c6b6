use obj_parser::geometry::{parse_normal, parse_obj_file, parse_texture, parse_vertex};
use obj_parser::material::{get_rgb, get_single_val};
use obj_parser::number::Number;
use obj_parser::parse::get_mtl_path;
use obj_parser::types::ObjectFault;

struct Source {
    state: u64,
}

impl Source {
    fn next(&mut self, below: usize) -> usize {
        self.state = self.state.wrapping_mul(6364136223846793005).wrapping_add(1442695040888963407);
        ((self.state >> 33) as usize) % below
    }

    fn text(&mut self, alphabet: &[&str], max_len: usize) -> String {
        let len = self.next(max_len + 1);
        let mut out = String::new();
        for _ in 0..len {
            out.push_str(alphabet[self.next(alphabet.len())]);
        }
        out
    }
}

fn letters(s: &str) -> Vec<char> {
    s.chars().collect()
}

fn is_float(s: &str) -> bool {
    s.parse::<f32>().is_ok()
}

fn label_by_std(text: &str, pat: &str) -> String {
    let pieces: Vec<&str> =
        text.lines().find(|x| x.contains(pat)).unwrap_or("").split(" ").skip(1).collect();
    pieces.join("_")
}

fn path_by_std(obj_path: &str, obj_content: &str) -> Option<String> {
    let line = obj_content.lines().find(|x| x.contains("mtllib "))?;
    let words: Vec<&str> = line.split_whitespace().collect();
    if words.len() < 2 {
        return None;
    }
    let mut path: Vec<&str> = obj_path.split("/").collect();
    path.pop();
    path.push(words[words.len() - 1]);
    Some(path.join("/"))
}

fn fields_by_std(line: &str, tag: &str, least: usize, most: usize) -> Option<Vec<String>> {
    let t: Vec<&str> = line.split_whitespace().collect();
    if t.len() < 1 + least || t.len() > 1 + most || t[0] != tag {
        return None;
    }
    if !t[1..].iter().all(|x| is_float(x)) {
        return None;
    }
    Some(t[1..].iter().map(|x| x.to_string()).collect())
}

fn corner_by_std(word: &str) -> Option<(u32, Option<u32>, Option<u32>)> {
    let mut f = word.split("/");
    let v = f.next().unwrap().parse::<u32>().ok()?;
    let vt = match f.next() {
        Some(x) => Some(x.parse::<u32>().ok()?),
        None => None,
    };
    let vn = match f.next() {
        Some(x) => Some(x.parse::<u32>().ok()?),
        None => None,
    };
    Some((v, vt, vn))
}

fn faces_by_std(text: &str) -> Option<Vec<Vec<(u32, Option<u32>, Option<u32>)>>> {
    let mut faces = Vec::new();
    for line in text.lines().filter(|x| x.starts_with("f ")) {
        let mut face = Vec::new();
        for word in line.split_whitespace().skip(1) {
            face.push(corner_by_std(word)?);
        }
        if !face.is_empty() {
            faces.push(face);
        }
    }
    Some(faces)
}

fn single_val_by_std(text: &str, key: &str) -> Option<String> {
    for line in text.lines() {
        let t: Vec<&str> = line.split_whitespace().collect();
        if t.len() == 2 && t[0] == key {
            return Some(t[1].to_string());
        }
    }
    None
}

fn rgb_by_std(text: &str, key: &str) -> Option<(String, String, String)> {
    for line in text.lines() {
        let t: Vec<&str> = line.split_whitespace().collect();
        if t.len() >= 4 && t[0] == key {
            if is_float(t[1]) && is_float(t[2]) && is_float(t[3]) {
                return Some((t[1].to_string(), t[2].to_string(), t[3].to_string()));
            }
            return None;
        }
    }
    None
}

fn texts(n: &Option<Number>) -> Option<String> {
    n.as_ref().map(|x| x.text())
}

#[test]
fn names_agree_with_std_on_many_texts() {
    let alphabet = ["o", "g", " ", " ", "a", "B", "_", "\n", "\n", "\r", "\t", "o ", "g ", "é"];
    let mut source = Source { state: 1 };
    for _ in 0..20000 {
        let text = format!("v 0 0 0\n{}", source.text(&alphabet, 12));
        let object = parse_obj_file(&text).unwrap();
        let name = label_by_std(&text, "o ");
        let group = label_by_std(&text, "g ");
        let expected_name = if name.is_empty() { "Defaut_object_name".to_string() } else { name };
        let expected_group = if group.is_empty() { None } else { Some(group) };
        assert_eq!(object.o, expected_name, "{:?}", text);
        assert_eq!(object.g, expected_group, "{:?}", text);
    }
}

#[test]
fn material_paths_agree_with_std_on_many_texts() {
    let paths = ["a", "b", "/", "/", ".", "mesh.obj", " ", "\n"];
    let alphabet = ["mtllib ", "mtllib", " ", " ", "x", "y.mtl", "\n", "\r", "\t", "/", "v 0 0 0\n"];
    let mut source = Source { state: 2 };
    for _ in 0..20000 {
        let path = source.text(&paths, 6);
        let text = source.text(&alphabet, 8);
        assert_eq!(get_mtl_path(&path, &text), path_by_std(&path, &text), "{:?} {:?}", path, text);
    }
}

#[test]
fn coordinate_lines_agree_with_std_on_many_lines() {
    let alphabet = [
        "v", "v ", "vt ", "vn ", "t", "n", " ", " ", "\t", "1", "0", ".", "-", "+", "e", "2.5 ",
        "-1e3 ", "x", "inf ", "nan",
    ];
    let mut source = Source { state: 3 };
    for _ in 0..40000 {
        let line = source.text(&alphabet, 10);
        let chars = letters(&line);
        let v = parse_vertex(&chars).map(|v| {
            let mut f = vec![v.x.text(), v.y.text(), v.z.text()];
            f.extend(texts(&v.w));
            f
        });
        assert_eq!(v, fields_by_std(&line, "v", 3, 4), "{:?}", line);
        let vt = parse_texture(&chars).map(|v| {
            let mut f = vec![v.u.text(), v.v.text()];
            f.extend(texts(&v.w));
            f
        });
        assert_eq!(vt, fields_by_std(&line, "vt", 2, 3), "{:?}", line);
        let vn = parse_normal(&chars).map(|v| vec![v.x.text(), v.y.text(), v.z.text()]);
        assert_eq!(vn, fields_by_std(&line, "vn", 3, 3), "{:?}", line);
    }
}

#[test]
fn faces_agree_with_std_on_many_texts() {
    let alphabet = [
        "f ", "f ", "f", " ", " ", "\n", "\n", "1", "2", "30", "/", "/", "a", "+", "-", "\t",
        "4294967295", "4294967296", "v 1 1 1\n",
    ];
    let mut source = Source { state: 4 };
    let mut accepted = 0;
    for _ in 0..40000 {
        let text = format!("v 0 0 0\n{}", source.text(&alphabet, 10));
        let expected = faces_by_std(&text);
        match parse_obj_file(&text) {
            Ok(object) => {
                let faces: Vec<Vec<(u32, Option<u32>, Option<u32>)>> = object
                    .f
                    .iter()
                    .map(|f| f.points.iter().map(|p| (p.v_id, p.vt_id, p.vn_id)).collect())
                    .collect();
                assert_eq!(Some(faces), expected, "{:?}", text);
                accepted += 1;
            }
            Err(fault) => {
                assert_eq!(fault, ObjectFault::FaceIndex, "{:?}", text);
                assert_eq!(None, expected, "{:?}", text);
            }
        }
    }
    assert!(accepted > 1000);
}

#[test]
fn material_fields_agree_with_std_on_many_texts() {
    let alphabet = [
        "Ka", "Ka ", "d", "d ", "Ns ", "map_Ka ", " ", " ", "\n", "\n", "\t", "1", "0.5 ", "x ",
        "1 ", "\r",
    ];
    let mut source = Source { state: 5 };
    for _ in 0..20000 {
        let text = source.text(&alphabet, 12);
        for key in ["Ka", "d", "Ns", "map_Ka"] {
            assert_eq!(get_single_val(&text, key), single_val_by_std(&text, key), "{:?}", text);
            let rgb = get_rgb(&text, key).map(|c| (c.0.text(), c.1.text(), c.2.text()));
            assert_eq!(rgb, rgb_by_std(&text, key), "{:?} {:?}", key, text);
        }
    }
}
