//! The fonts that captions can have.

use crate::text::texts;
use vstd::prelude::*;

verus! {

/// The names of the fonts and their files, best first.
pub fn font_candidates() -> (r: [(&'static str, &'static str); 12])
    ensures
        r[0].0@ == "微軟正黑體"@ && r[0].1@ == "msjh.ttc"@,
        r[1].0@ == "微軟正黑體（粗體）"@ && r[1].1@ == "msjhbd.ttc"@,
        r[2].0@ == "標楷體"@ && r[2].1@ == "kaiu.ttf"@,
        r[3].0@ == "新細明體"@ && r[3].1@ == "mingliu.ttc"@,
        r[4].0@ == "微軟雅黑"@ && r[4].1@ == "msyh.ttc"@,
        r[5].0@ == "Arial"@ && r[5].1@ == "arial.ttf"@,
        r[6].0@ == "Arial（粗體）"@ && r[6].1@ == "arialbd.ttf"@,
        r[7].0@ == "Times New Roman"@ && r[7].1@ == "times.ttf"@,
        r[8].0@ == "Impact"@ && r[8].1@ == "impact.ttf"@,
        r[9].0@ == "Comic Sans MS"@ && r[9].1@ == "comic.ttf"@,
        r[10].0@ == "Consolas"@ && r[10].1@ == "consola.ttf"@,
        r[11].0@ == "Segoe UI"@ && r[11].1@ == "segoeui.ttf"@,
{
    [
        ("微軟正黑體", "msjh.ttc"),
        ("微軟正黑體（粗體）", "msjhbd.ttc"),
        ("標楷體", "kaiu.ttf"),
        ("新細明體", "mingliu.ttc"),
        ("微軟雅黑", "msyh.ttc"),
        ("Arial", "arial.ttf"),
        ("Arial（粗體）", "arialbd.ttf"),
        ("Times New Roman", "times.ttf"),
        ("Impact", "impact.ttf"),
        ("Comic Sans MS", "comic.ttf"),
        ("Consolas", "consola.ttf"),
        ("Segoe UI", "segoeui.ttf"),
    ]
}

/// The names of the fonts whose files are there, in the order of the candidates.
pub open spec fn names_there(all: Seq<Seq<char>>, there: Seq<bool>, n: int) -> Seq<Seq<char>>
    decreases n,
{
    if n <= 0 {
        seq![]
    } else if there[n - 1] {
        names_there(all, there, n - 1).push(all[n - 1])
    } else {
        names_there(all, there, n - 1)
    }
}

/// What a list of names and files stands for: the names, or the files.
pub open spec fn column(v: Seq<(&'static str, &'static str)>, second: bool) -> Seq<Seq<char>> {
    v.map_values(
        |p: (&'static str, &'static str)|
            if second {
                p.1@
            } else {
                p.0@
            },
    )
}

/// The fonts that can be used: the names and the files of those candidates whose files
/// are `there`.
pub fn detect_fonts(candidates: &[(&'static str, &'static str)], there: &Vec<bool>) -> (r: (
    Vec<String>,
    Vec<String>,
))
    requires
        there.len() == candidates.len(),
    ensures
        texts(r.0@) == names_there(column(candidates@, false), there@, there.len() as int),
        texts(r.1@) == names_there(column(candidates@, true), there@, there.len() as int),
{
    let ghost names = column(candidates@, false);
    let ghost files = column(candidates@, true);
    let mut name: Vec<String> = Vec::new();
    let mut file: Vec<String> = Vec::new();
    let mut i: usize = 0;
    assert(texts(name@) =~= seq![]);
    assert(texts(file@) =~= seq![]);
    while i < candidates.len()
        invariant
            i <= candidates.len(),
            there.len() == candidates.len(),
            names == column(candidates@, false),
            files == column(candidates@, true),
            texts(name@) == names_there(names, there@, i as int),
            texts(file@) == names_there(files, there@, i as int),
        decreases candidates.len() - i,
    {
        let ghost n = texts(name@);
        let ghost f = texts(file@);
        if there[i] {
            name.push(candidates[i].0.to_owned());
            file.push(candidates[i].1.to_owned());
            assert(texts(name@) =~= n.push(names[i as int]));
            assert(texts(file@) =~= f.push(files[i as int]));
        }
        i += 1;
    }
    (name, file)
}

/// The files of the fonts for the texts of the window, best first.
pub fn window_fonts() -> (r: [&'static str; 4])
    ensures
        r[0]@ == "msjh.ttc"@,
        r[1]@ == "msjhbd.ttc"@,
        r[2]@ == "mingliu.ttc"@,
        r[3]@ == "msyh.ttc"@,
{
    ["msjh.ttc", "msjhbd.ttc", "mingliu.ttc", "msyh.ttc"]
}

} // verus!
