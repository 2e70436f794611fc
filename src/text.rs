use vstd::prelude::*;

verus! {

/// Unicode White_Space: the characters `char::is_whitespace` accepts.
pub open spec fn is_space(c: char) -> bool {
    let u = c as u32;
    (0x09 <= u && u <= 0x0d) || u == 0x20 || u == 0x85 || u == 0xa0 || u == 0x1680 || (0x2000
        <= u && u <= 0x200a) || u == 0x2028 || u == 0x2029 || u == 0x202f || u == 0x205f || u
        == 0x3000
}

/// Tells whether `c` is white space.
pub fn is_whitespace(c: char) -> (r: bool)
    ensures
        r == is_space(c),
{
    let u = c as u32;
    (0x09 <= u && u <= 0x0d) || u == 0x20 || u == 0x85 || u == 0xa0 || u == 0x1680 || (0x2000
        <= u && u <= 0x200a) || u == 0x2028 || u == 0x2029 || u == 0x202f || u == 0x205f || u
        == 0x3000
}

/// `s` without its trailing white space.
pub open spec fn trim_end(s: Seq<char>) -> Seq<char>
    decreases s.len(),
{
    if s.len() > 0 && is_space(s.last()) {
        trim_end(s.drop_last())
    } else {
        s
    }
}

/// The pieces of `s` between newline characters: one more than there are
/// newlines in `s`.
pub open spec fn split_lines(s: Seq<char>) -> Seq<Seq<char>>
    decreases s.len(),
{
    if s.len() == 0 {
        seq![Seq::<char>::empty()]
    } else {
        let p = split_lines(s.drop_last());
        if s.last() == '\n' {
            p.push(Seq::<char>::empty())
        } else {
            p.update(p.len() - 1, p.last().push(s.last()))
        }
    }
}

/// The buffer read from the text `s`: its lines, without an empty piece
/// after a final newline, each without trailing white space; a single
/// empty line where there is none.
pub open spec fn load_lines(s: Seq<char>) -> Seq<Seq<char>> {
    let p = split_lines(s);
    let q = if p.last().len() == 0 {
        p.drop_last()
    } else {
        p
    };
    if q.len() == 0 {
        seq![Seq::<char>::empty()]
    } else {
        q.map_values(|l: Seq<char>| trim_end(l))
    }
}

/// The text written for `lines`: each line followed by a newline.
pub open spec fn text_of(lines: Seq<Seq<char>>) -> Seq<char>
    decreases lines.len(),
{
    if lines.len() == 0 {
        Seq::<char>::empty()
    } else {
        text_of(lines.drop_last()) + lines.last().push('\n')
    }
}

/// The lines that a buffer is made of: at least one, none with a newline.
pub open spec fn lines_valid(lines: Seq<Seq<char>>) -> bool {
    &&& lines.len() >= 1
    &&& forall|i: int, j: int|
        0 <= i < lines.len() && 0 <= j < lines[i].len() ==> #[trigger] lines[i][j] != '\n'
}

proof fn lemma_trim_end_prefix(s: Seq<char>)
    ensures
        trim_end(s).len() <= s.len(),
        trim_end(s) == s.take(trim_end(s).len() as int),
    decreases s.len(),
{
    if s.len() > 0 && is_space(s.last()) {
        lemma_trim_end_prefix(s.drop_last());
        assert(s.drop_last().take(trim_end(s).len() as int) =~= s.take(trim_end(s).len() as int));
    } else {
        assert(s.take(s.len() as int) =~= s);
    }
}

proof fn lemma_split_lines_valid(s: Seq<char>)
    ensures
        split_lines(s).len() >= 1,
        forall|i: int, j: int|
            0 <= i < split_lines(s).len() && 0 <= j < split_lines(s)[i].len()
                ==> #[trigger] split_lines(s)[i][j] != '\n',
    decreases s.len(),
{
    if s.len() > 0 {
        lemma_split_lines_valid(s.drop_last());
    }
}

/// Reading text always gives a valid buffer.
pub proof fn lemma_load_lines_valid(s: Seq<char>)
    ensures
        lines_valid(load_lines(s)),
{
    lemma_split_lines_valid(s);
    let r = load_lines(s);
    assert forall|i: int, j: int| 0 <= i < r.len() && 0 <= j < r[i].len() implies #[trigger] r[i][j]
        != '\n' by {
        let p = split_lines(s);
        if !(p.last().len() == 0 && p.len() == 1) {
            lemma_trim_end_prefix(p[i]);
            assert(r[i][j] == p[i][j]);
        }
    }
}

proof fn lemma_split_append(s: Seq<char>, t: Seq<char>)
    requires
        forall|j: int| 0 <= j < t.len() ==> t[j] != '\n',
    ensures
        split_lines(s + t) == split_lines(s).update(
            split_lines(s).len() - 1,
            split_lines(s).last() + t,
        ),
    decreases t.len(),
{
    lemma_split_lines_valid(s);
    let p = split_lines(s);
    if t.len() == 0 {
        assert(s + t =~= s);
        assert(p.last() + t =~= p.last());
        assert(p.update(p.len() - 1, p.last()) =~= p);
    } else {
        let u = t.drop_last();
        lemma_split_append(s, u);
        assert((s + t).drop_last() =~= s + u);
        assert((s + t).last() == t.last());
        assert(t.last() != '\n');
        let q = split_lines(s + u);
        assert(q.len() == p.len());
        assert(q.last() == p.last() + u);
        assert(split_lines(s + t) == q.update(q.len() - 1, q.last().push(t.last())));
        assert((p.last() + u).push(t.last()) =~= p.last() + t);
        assert(split_lines(s + t) =~= p.update(p.len() - 1, p.last() + t));
    }
}

proof fn lemma_split_text(lines: Seq<Seq<char>>)
    requires
        forall|i: int, j: int|
            0 <= i < lines.len() && 0 <= j < lines[i].len() ==> #[trigger] lines[i][j] != '\n',
    ensures
        split_lines(text_of(lines)) == lines.push(Seq::<char>::empty()),
    decreases lines.len(),
{
    if lines.len() == 0 {
        assert(split_lines(Seq::<char>::empty()) =~= seq![Seq::<char>::empty()]);
    } else {
        let init = lines.drop_last();
        let l = lines.last();
        lemma_split_text(init);
        assert forall|j: int| 0 <= j < l.len() implies l[j] != '\n' by {
            assert(lines[lines.len() - 1][j] != '\n');
        }
        lemma_split_append(text_of(init), l);
        let s = text_of(init) + l;
        assert(text_of(lines) == s.push('\n')) by {
            assert(text_of(init) + l.push('\n') =~= s.push('\n'));
        }
        assert(s.push('\n').drop_last() =~= s);
        assert(Seq::<char>::empty() + l =~= l);
        assert(lines.push(Seq::<char>::empty()) =~= init.push(Seq::<char>::empty()).update(
            init.len() as int,
            Seq::<char>::empty() + l,
        ).push(Seq::<char>::empty()));
    }
}

/// Writing a buffer and reading the text back gives the same lines, when
/// no line ends in white space.
pub proof fn lemma_load_text(lines: Seq<Seq<char>>)
    requires
        lines_valid(lines),
        forall|i: int| 0 <= i < lines.len() && #[trigger] lines[i].len() > 0 ==> !is_space(lines[i].last()),
    ensures
        load_lines(text_of(lines)) == lines,
{
    lemma_split_text(lines);
    let p = lines.push(Seq::<char>::empty());
    assert(p.drop_last() =~= lines);
    assert forall|i: int| 0 <= i < lines.len() implies trim_end(#[trigger] lines[i]) == lines[i] by {
        assert(lines[i].len() > 0 ==> !is_space(lines[i].last()));
    }
    assert(lines.map_values(|l: Seq<char>| trim_end(l)) =~= lines);
}

/// Removes the trailing white space of `line`.
pub fn trim_end_in_place(line: &mut Vec<char>)
    ensures
        final(line)@ == trim_end(old(line)@),
{
    loop
        invariant
            trim_end(line@) == trim_end(old(line)@),
        ensures
            line@ == trim_end(old(line)@),
        decreases line@.len(),
    {
        let n = line.len();
        if n == 0 {
            assert(trim_end(line@) == line@);
            break;
        }
        if !is_whitespace(line[n - 1]) {
            assert(trim_end(line@) == line@);
            break;
        }
        let ghost before = line@;
        line.pop();
        assert(trim_end(before) == trim_end(line@));
    }
}

/// The lines of `text`, as the buffer reads them.
pub fn parse_lines(text: &Vec<char>) -> (r: Vec<Vec<char>>)
    ensures
        r@.len() == load_lines(text@).len(),
        forall|k: int| 0 <= k < r@.len() ==> #[trigger] r@[k]@ == load_lines(text@)[k],
{
    let mut done: Vec<Vec<char>> = Vec::new();
    let mut cur: Vec<char> = Vec::new();
    let mut i: usize = 0;
    proof {
        assert(text@.take(0) =~= Seq::<char>::empty());
    }
    while i < text.len()
        invariant
            i <= text@.len(),
            split_lines(text@.take(i as int)).len() == done@.len() + 1,
            forall|k: int|
                0 <= k < done@.len() ==> #[trigger] done@[k]@ == trim_end(
                    split_lines(text@.take(i as int))[k],
                ),
            cur@ == split_lines(text@.take(i as int)).last(),
        decreases text@.len() - i,
    {
        let c = text[i];
        proof {
            assert(text@.take(i + 1).drop_last() =~= text@.take(i as int));
        }
        if c == '\n' {
            let mut line = cur;
            cur = Vec::new();
            trim_end_in_place(&mut line);
            done.push(line);
        } else {
            cur.push(c);
        }
        i = i + 1;
    }
    proof {
        assert(text@.take(i as int) =~= text@);
    }
    if cur.len() == 0 {
        if done.len() == 0 {
            done.push(Vec::new());
        }
    } else {
        trim_end_in_place(&mut cur);
        done.push(cur);
    }
    done
}

/// The text written for `lines`.
pub fn text_of_lines(lines: &Vec<Vec<char>>) -> (r: Vec<char>)
    ensures
        r@ == text_of(lines@.map_values(|l: Vec<char>| l@)),
{
    let ghost ls = lines@.map_values(|l: Vec<char>| l@);
    let mut r: Vec<char> = Vec::new();
    let mut i: usize = 0;
    proof {
        assert(ls.take(0) =~= Seq::<Seq<char>>::empty());
    }
    while i < lines.len()
        invariant
            i <= lines@.len(),
            ls == lines@.map_values(|l: Vec<char>| l@),
            r@ == text_of(ls.take(i as int)),
        decreases lines@.len() - i,
    {
        let line = &lines[i];
        let mut j: usize = 0;
        let ghost start = r@;
        while j < line.len()
            invariant
                j <= line@.len(),
                r@ == start + line@.take(j as int),
            decreases line@.len() - j,
        {
            r.push(line[j]);
            proof {
                assert(start + line@.take(j + 1) =~= (start + line@.take(j as int)).push(line@[j as int]));
            }
            j = j + 1;
        }
        r.push('\n');
        proof {
            assert(line@.take(j as int) =~= line@);
            assert(ls.take(i + 1).drop_last() =~= ls.take(i as int));
            assert(start + line@.push('\n') =~= (start + line@).push('\n'));
        }
        i = i + 1;
    }
    proof {
        assert(ls.take(i as int) =~= ls);
    }
    r
}

} // verus!
