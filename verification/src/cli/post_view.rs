use vstd::prelude::*;
use vstd::string::StrSliceExecFns;
use vstd::string::StringExecFns;

use super::metadata::{padded, spaces, Icon, CLOCK, COMMENT, EYE, IMAGE, PENCIL, POUND};
use super::num::{decimal, decimal_spec};
use super::preview::{id_text, id_text_spec, labelled, preview_lines, preview_title};
use super::printer::{
    divider_line, glyph_text, piece, pieces_view, separators, wrapped_lines, MetadataRow, Piece, Printer, Style,
    MAX_TEXT_WIDTH, TRASH,
};
use super::text::{fill, filled, MAX_WIDTH};
use crate::model::{CommentData, ObjectPreview, PostInfo, PostPreview, TagPreview, UserPreview, Visibility};

verus! {

/// nf-md-account
pub const ACCOUNT: char = '\u{f0004}';

/// The mark before each related post and tag.
pub const BULLET: char = '\u{eab6}';

/// How wide metadata titles are padded: the length of the longest,
/// `Visibility`.
pub const TITLE_WIDTH: usize = 10;

/// The lines, each as its styled pieces.
pub open spec fn lines_view(lines: Seq<Vec<Piece>>) -> Seq<Seq<(Style, Seq<char>)>> {
    lines.map_values(|l: Vec<Piece>| pieces_view(l@))
}

/// A line with an ID: the indentation, the pound icon and the ID.
pub open spec fn id_line(indent: nat, id: u128) -> Seq<(Style, Seq<char>)> {
    seq![(Style::Plain, spaces(indent))] + labelled(POUND, id_text_spec(id))
}

/// The poster: the account icon and the name in bold, then the poster's ID
/// two columns further in, then a blank line; nothing without a poster.
pub open spec fn poster_section(poster: Option<UserPreview>, indent: nat) -> Seq<Seq<(Style, Seq<char>)>> {
    match poster {
        Some(u) => seq![
            seq![(Style::Plain, seq![ACCOUNT]), (Style::Plain, " "@), (Style::Bold, u.name@)],
            id_line(indent + 2, u.id),
            Seq::empty(),
        ],
        None => Seq::empty(),
    }
}

/// The title and a blank line; nothing for an empty title.
pub open spec fn title_section(title: Seq<char>) -> Seq<Seq<(Style, Seq<char>)>> {
    if title.len() == 0 {
        Seq::empty()
    } else {
        seq![seq![(Style::Title, title)], Seq::empty()]
    }
}

/// The description wrapped to the terminal's width (at most `MAX_WIDTH`),
/// then a blank line; nothing for an empty description.
pub open spec fn description_section(description: Seq<char>, terminal_width: usize) -> Seq<Seq<(Style, Seq<char>)>> {
    if description.len() == 0 {
        Seq::empty()
    } else {
        let width = if terminal_width < MAX_WIDTH {
            terminal_width
        } else {
            MAX_WIDTH
        };
        seq![seq![(Style::Plain, filled(description, width))], Seq::empty()]
    }
}

/// The line that heads a list: its name and how many items follow.
pub open spec fn count_line(name: Seq<char>, n: nat) -> Seq<(Style, Seq<char>)> {
    seq![(Style::Plain, name + " "@), (Style::Count, decimal_spec(n))]
}

/// An attached object, numbered: its media type, then its ID, then a blank
/// line.
pub open spec fn object_item(number: nat, o: ObjectPreview) -> Seq<Seq<(Style, Seq<char>)>> {
    seq![
        seq![(Style::Plain, "  "@ + decimal_spec(number) + " "@), (Style::Plain, o.media_type@ + "/"@ + o.subtype@)],
        id_line(4, o.id),
        Seq::empty(),
    ]
}

/// The attached objects, numbered from 1.
pub open spec fn object_items(objects: Seq<ObjectPreview>) -> Seq<Seq<(Style, Seq<char>)>>
    decreases objects.len(),
{
    if objects.len() == 0 {
        Seq::empty()
    } else {
        object_items(objects.drop_last()) + object_item(objects.len(), objects.last())
    }
}

/// "Objects k" and the k objects; nothing without objects.
pub open spec fn objects_section(objects: Seq<ObjectPreview>) -> Seq<Seq<(Style, Seq<char>)>> {
    if objects.len() == 0 {
        Seq::empty()
    } else {
        seq![count_line("Objects"@, objects.len())] + object_items(objects)
    }
}

/// The mark that starts an item of a list.
pub open spec fn bullet() -> Seq<(Style, Seq<char>)> {
    seq![(Style::Plain, "  "@), (Style::Plain, seq![BULLET]), (Style::Plain, " "@)]
}

/// A related post: its preview four columns in, marked, with `age` telling
/// how long ago it was created, then a blank line.
pub open spec fn post_item(p: PostPreview, age: Seq<char>) -> Seq<Seq<(Style, Seq<char>)>> {
    seq![
        bullet() + preview_title(p.title@),
        id_line(4, p.id),
        seq![(Style::Plain, spaces(4))] + labelled(IMAGE, decimal_spec(p.object_count as nat)) + seq![
            (Style::Plain, "  "@),
        ] + labelled(COMMENT, decimal_spec(p.comment_count as nat)) + seq![(Style::Plain, "  "@)] + labelled(
            CLOCK,
            age,
        ),
        Seq::empty(),
    ]
}

/// The related posts, each with its age.
pub open spec fn post_items(posts: Seq<PostPreview>, ages: Seq<Seq<char>>) -> Seq<Seq<(Style, Seq<char>)>>
    decreases posts.len(),
{
    if posts.len() == 0 {
        Seq::empty()
    } else {
        post_items(posts.drop_last(), ages) + post_item(posts.last(), ages[posts.len() - 1])
    }
}

/// "Posts m" and the m related posts; nothing without related posts.
pub open spec fn posts_section(posts: Seq<PostPreview>, ages: Seq<Seq<char>>) -> Seq<Seq<(Style, Seq<char>)>> {
    if posts.len() == 0 {
        Seq::empty()
    } else {
        seq![count_line("Posts"@, posts.len())] + post_items(posts, ages)
    }
}

/// A tag: marked, its name in bold, then its ID, then a blank line.
pub open spec fn tag_item(t: TagPreview) -> Seq<Seq<(Style, Seq<char>)>> {
    seq![bullet() + seq![(Style::Bold, t.name@)], id_line(4, t.id), Seq::empty()]
}

/// The tags.
pub open spec fn tag_items(tags: Seq<TagPreview>) -> Seq<Seq<(Style, Seq<char>)>>
    decreases tags.len(),
{
    if tags.len() == 0 {
        Seq::empty()
    } else {
        tag_items(tags.drop_last()) + tag_item(tags.last())
    }
}

/// "Tags t" and the t tags; nothing without tags.
pub open spec fn tags_section(tags: Seq<TagPreview>) -> Seq<Seq<(Style, Seq<char>)>> {
    if tags.len() == 0 {
        Seq::empty()
    } else {
        seq![count_line("Tags"@, tags.len())] + tag_items(tags)
    }
}

/// How a visibility is written.
pub open spec fn visibility_text(v: Visibility) -> Seq<char> {
    match v {
        Visibility::Draft => "draft"@,
        Visibility::Public => "public"@,
    }
}

/// A row of metadata: indented, the icon, the title padded to
/// `TITLE_WIDTH`, two spaces and the value.
pub open spec fn metadata_line(indent: nat, icon: char, title: Seq<char>, value: Seq<char>) -> Seq<(Style, Seq<char>)> {
    seq![
        (Style::Plain, spaces(indent)),
        (Style::Label, seq![icon]),
        (Style::Plain, " "@),
        (Style::Label, padded(title, TITLE_WIDTH as nat)),
        (Style::Plain, "  "@),
        (Style::Plain, value),
    ]
}

/// The rows ID, Visibility, Comments and Created, and Modified when the post
/// was modified after it was created.
pub open spec fn metadata_section(post: PostInfo, indent: nat, created: Seq<char>, modified: Seq<char>) -> Seq<
    Seq<(Style, Seq<char>)>,
> {
    seq![
        metadata_line(indent, POUND, "ID"@, id_text_spec(post.id)),
        metadata_line(indent, EYE, "Visibility"@, visibility_text(post.visibility)),
        metadata_line(indent, COMMENT, "Comments"@, decimal_spec(post.comment_count as nat)),
        metadata_line(indent, CLOCK, "Created"@, created),
    ] + if post.modified != post.created {
        seq![metadata_line(indent, PENCIL, "Modified"@, modified)]
    } else {
        Seq::empty()
    }
}

/// How a post is shown to a person.
pub open spec fn post_view(
    post: PostInfo,
    indent: nat,
    created: Seq<char>,
    modified: Seq<char>,
    terminal_width: usize,
    ages: Seq<Seq<char>>,
) -> Seq<Seq<(Style, Seq<char>)>> {
    poster_section(post.poster, indent) + title_section(post.title@) + description_section(
        post.description@,
        terminal_width,
    ) + objects_section(post.objects@) + posts_section(post.posts@, ages) + tags_section(post.tags@)
        + metadata_section(post, indent, created, modified)
}

proof fn lemma_lines_view_add(a: Seq<Vec<Piece>>, b: Seq<Vec<Piece>>)
    ensures
        lines_view(a + b) == lines_view(a) + lines_view(b),
{
    assert(lines_view(a + b) =~= lines_view(a) + lines_view(b));
}

/// Appends `more` to `lines`.
fn add_lines(lines: &mut Vec<Vec<Piece>>, more: Vec<Vec<Piece>>)
    ensures
        lines_view(final(lines)@) == lines_view(old(lines)@) + lines_view(more@),
{
    let mut more = more;
    let ghost a = lines@;
    let ghost b = more@;
    lines.append(&mut more);
    proof {
        lemma_lines_view_add(a, b);
    }
}

fn id_pieces(indent: usize, id: u128) -> (line: Vec<Piece>)
    ensures
        pieces_view(line@) == id_line(indent as nat, id),
{
    let mut line: Vec<Piece> = Vec::new();
    line.push(Piece { style: Style::Plain, text: indent_text(indent) });
    line.push(Piece { style: Style::Label, text: glyph_text(Icon::new(POUND)) });
    line.push(piece(Style::Plain, " "));
    line.push(Piece { style: Style::Secondary, text: id_text(id) });
    proof {
        assert(pieces_view(line@) =~= id_line(indent as nat, id));
    }
    line
}

/// `n` spaces.
fn indent_text(n: usize) -> (text: String)
    ensures
        text@ == spaces(n as nat),
{
    let mut text = String::new();
    let mut i: usize = 0;
    proof {
        assert(text@ =~= spaces(0));
    }
    while i < n
        invariant
            i <= n,
            text@ == spaces(i as nat),
        decreases n - i,
    {
        text.append(" ");
        proof {
            reveal_strlit(" ");
            assert(text@ =~= spaces((i + 1) as nat));
        }
        i += 1;
    }
    text
}

fn empty_line() -> (line: Vec<Piece>)
    ensures
        pieces_view(line@) == Seq::<(Style, Seq<char>)>::empty(),
{
    let line: Vec<Piece> = Vec::new();
    proof {
        assert(pieces_view(line@) =~= Seq::<(Style, Seq<char>)>::empty());
    }
    line
}

fn poster_lines(poster: &Option<UserPreview>, indent: usize) -> (lines: Vec<Vec<Piece>>)
    requires
        indent + 2 <= usize::MAX,
    ensures
        lines_view(lines@) == poster_section(*poster, indent as nat),
{
    let mut lines: Vec<Vec<Piece>> = Vec::new();
    match poster {
        Some(u) => {
            let mut first: Vec<Piece> = Vec::new();
            first.push(Piece { style: Style::Plain, text: glyph_text(Icon::new(ACCOUNT)) });
            first.push(piece(Style::Plain, " "));
            first.push(Piece { style: Style::Bold, text: u.name.clone() });
            proof {
                assert(pieces_view(first@) =~= seq![
                    (Style::Plain, seq![ACCOUNT]),
                    (Style::Plain, " "@),
                    (Style::Bold, u.name@),
                ]);
            }
            lines.push(first);
            lines.push(id_pieces(indent + 2, u.id));
            lines.push(empty_line());
        },
        None => {},
    }
    proof {
        assert(lines_view(lines@) =~= poster_section(*poster, indent as nat));
    }
    lines
}

fn title_lines(title: &String) -> (lines: Vec<Vec<Piece>>)
    ensures
        lines_view(lines@) == title_section(title@),
{
    let mut lines: Vec<Vec<Piece>> = Vec::new();
    if title.as_str().unicode_len() > 0 {
        let mut line: Vec<Piece> = Vec::new();
        line.push(Piece { style: Style::Title, text: title.clone() });
        proof {
            assert(pieces_view(line@) =~= seq![(Style::Title, title@)]);
        }
        lines.push(line);
        lines.push(empty_line());
    }
    proof {
        assert(lines_view(lines@) =~= title_section(title@));
    }
    lines
}

fn description_lines(description: &String, terminal_width: usize) -> (lines: Vec<Vec<Piece>>)
    ensures
        lines_view(lines@) == description_section(description@, terminal_width),
{
    let mut lines: Vec<Vec<Piece>> = Vec::new();
    if description.as_str().unicode_len() > 0 {
        let width = if terminal_width < MAX_WIDTH {
            terminal_width
        } else {
            MAX_WIDTH
        };
        let mut line: Vec<Piece> = Vec::new();
        line.push(Piece { style: Style::Plain, text: fill(description.as_str(), width) });
        proof {
            assert(pieces_view(line@) =~= seq![(Style::Plain, filled(description@, width))]);
        }
        lines.push(line);
        lines.push(empty_line());
    }
    proof {
        assert(lines_view(lines@) =~= description_section(description@, terminal_width));
    }
    lines
}

fn count_pieces(name: &str, n: usize) -> (line: Vec<Piece>)
    ensures
        pieces_view(line@) == count_line(name@, n as nat),
{
    let mut line: Vec<Piece> = Vec::new();
    line.push(Piece { style: Style::Plain, text: String::from_str(name).concat(" ") });
    line.push(Piece { style: Style::Count, text: decimal(n as u64) });
    proof {
        assert(pieces_view(line@) =~= count_line(name@, n as nat));
    }
    line
}

fn object_lines(objects: &Vec<ObjectPreview>) -> (lines: Vec<Vec<Piece>>)
    ensures
        lines_view(lines@) == objects_section(objects@),
{
    let mut lines: Vec<Vec<Piece>> = Vec::new();
    if objects.len() == 0 {
        proof {
            assert(lines_view(lines@) =~= objects_section(objects@));
        }
        return lines;
    }
    lines.push(count_pieces("Objects", objects.len()));
    proof {
        reveal_strlit("Objects");
        assert(lines_view(lines@) =~= seq![count_line("Objects"@, objects@.len())] + object_items(objects@.take(0)));
    }
    let mut i: usize = 0;
    while i < objects.len()
        invariant
            i <= objects@.len(),
            lines_view(lines@) == seq![count_line("Objects"@, objects@.len())] + object_items(objects@.take(i as int)),
        decreases objects@.len() - i,
    {
        let o = &objects[i];
        let mut first: Vec<Piece> = Vec::new();
        let number = String::from_str("  ").concat(decimal((i + 1) as u64).as_str()).concat(" ");
        first.push(Piece { style: Style::Plain, text: number });
        first.push(Piece { style: Style::Plain, text: o.media_type.clone().concat("/").concat(o.subtype.as_str()) });
        proof {
            assert(pieces_view(first@) =~= object_item((i + 1) as nat, *o)[0]);
        }
        let ghost before = lines@;
        lines.push(first);
        lines.push(id_pieces(4, o.id));
        lines.push(empty_line());
        proof {
            assert(objects@.take(i + 1).drop_last() =~= objects@.take(i as int));
            assert(objects@.take(i + 1).last() == *o);
            assert(lines_view(lines@) =~= lines_view(before) + object_item((i + 1) as nat, *o));
        }
        i += 1;
    }
    proof {
        assert(objects@.take(i as int) =~= objects@);
    }
    lines
}

fn tag_lines(tags: &Vec<TagPreview>) -> (lines: Vec<Vec<Piece>>)
    ensures
        lines_view(lines@) == tags_section(tags@),
{
    let mut lines: Vec<Vec<Piece>> = Vec::new();
    if tags.len() == 0 {
        proof {
            assert(lines_view(lines@) =~= tags_section(tags@));
        }
        return lines;
    }
    lines.push(count_pieces("Tags", tags.len()));
    proof {
        assert(lines_view(lines@) =~= seq![count_line("Tags"@, tags@.len())] + tag_items(tags@.take(0)));
    }
    let mut i: usize = 0;
    while i < tags.len()
        invariant
            i <= tags@.len(),
            lines_view(lines@) == seq![count_line("Tags"@, tags@.len())] + tag_items(tags@.take(i as int)),
        decreases tags@.len() - i,
    {
        let t = &tags[i];
        let mut first = bullet_pieces();
        first.push(Piece { style: Style::Bold, text: t.name.clone() });
        proof {
            assert(pieces_view(first@) =~= tag_item(*t)[0]);
        }
        let ghost before = lines@;
        lines.push(first);
        lines.push(id_pieces(4, t.id));
        lines.push(empty_line());
        proof {
            assert(tags@.take(i + 1).drop_last() =~= tags@.take(i as int));
            assert(tags@.take(i + 1).last() == *t);
            assert(lines_view(lines@) =~= lines_view(before) + tag_item(*t));
        }
        i += 1;
    }
    proof {
        assert(tags@.take(i as int) =~= tags@);
    }
    lines
}

fn bullet_pieces() -> (line: Vec<Piece>)
    ensures
        pieces_view(line@) == bullet(),
{
    let mut line: Vec<Piece> = Vec::new();
    line.push(piece(Style::Plain, "  "));
    line.push(Piece { style: Style::Plain, text: glyph_text(Icon::new(BULLET)) });
    line.push(piece(Style::Plain, " "));
    proof {
        assert(pieces_view(line@) =~= bullet());
    }
    line
}

fn related_post_lines(posts: &Vec<PostPreview>, ages: &Vec<String>) -> (lines: Vec<Vec<Piece>>)
    requires
        ages@.len() == posts@.len(),
    ensures
        lines_view(lines@) == posts_section(posts@, ages@.map_values(|a: String| a@)),
{
    let ghost aged = ages@.map_values(|a: String| a@);
    let mut lines: Vec<Vec<Piece>> = Vec::new();
    if posts.len() == 0 {
        proof {
            assert(lines_view(lines@) =~= posts_section(posts@, aged));
        }
        return lines;
    }
    lines.push(count_pieces("Posts", posts.len()));
    proof {
        assert(lines_view(lines@) =~= seq![count_line("Posts"@, posts@.len())] + post_items(posts@.take(0), aged));
    }
    let mut i: usize = 0;
    while i < posts.len()
        invariant
            i <= posts@.len(),
            ages@.len() == posts@.len(),
            aged == ages@.map_values(|a: String| a@),
            lines_view(lines@) == seq![count_line("Posts"@, posts@.len())] + post_items(posts@.take(i as int), aged),
        decreases posts@.len() - i,
    {
        let p = &posts[i];
        let mut preview = preview_lines(p, 4, ages[i].as_str());
        let third = preview.pop().unwrap();
        let second = preview.pop().unwrap();
        let mut first_rest = preview.pop().unwrap();
        let mut first = bullet_pieces();
        let ghost b = first@;
        let ghost r = first_rest@;
        first.append(&mut first_rest);
        proof {
            assert(first@ == b + r);
            assert(pieces_view(first@) =~= pieces_view(b) + pieces_view(r));
            assert(aged[i as int] == ages@[i as int]@);
        }
        let ghost before = lines@;
        lines.push(first);
        lines.push(second);
        lines.push(third);
        lines.push(empty_line());
        proof {
            assert(posts@.take(i + 1).drop_last() =~= posts@.take(i as int));
            assert(posts@.take(i + 1).last() == *p);
            assert(lines_view(lines@) =~= lines_view(before) + post_item(*p, aged[i as int]));
        }
        i += 1;
    }
    proof {
        assert(posts@.take(i as int) =~= posts@);
    }
    lines
}

fn metadata_pieces(indent: usize, icon: char, title: &str, value: String) -> (line: Vec<Piece>)
    ensures
        pieces_view(line@) == metadata_line(indent as nat, icon, title@, value@),
{
    let mut line: Vec<Piece> = Vec::new();
    line.push(Piece { style: Style::Plain, text: indent_text(indent) });
    line.push(Piece { style: Style::Label, text: glyph_text(Icon::new(icon)) });
    line.push(piece(Style::Plain, " "));
    line.push(Piece { style: Style::Label, text: super::metadata::pad(String::from_str(title), TITLE_WIDTH) });
    line.push(piece(Style::Plain, "  "));
    line.push(Piece { style: Style::Plain, text: value });
    proof {
        assert(pieces_view(line@) =~= metadata_line(indent as nat, icon, title@, value@));
    }
    line
}

fn visibility_string(v: Visibility) -> (text: String)
    ensures
        text@ == visibility_text(v),
{
    match v {
        Visibility::Draft => String::from_str("draft"),
        Visibility::Public => String::from_str("public"),
    }
}

fn metadata_lines(post: &PostInfo, indent: usize, created: &str, modified: &str) -> (lines: Vec<Vec<Piece>>)
    ensures
        lines_view(lines@) == metadata_section(*post, indent as nat, created@, modified@),
{
    let mut lines: Vec<Vec<Piece>> = Vec::new();
    lines.push(metadata_pieces(indent, POUND, "ID", id_text(post.id)));
    lines.push(metadata_pieces(indent, EYE, "Visibility", visibility_string(post.visibility)));
    lines.push(metadata_pieces(indent, COMMENT, "Comments", decimal(post.comment_count as u64)));
    lines.push(metadata_pieces(indent, CLOCK, "Created", String::from_str(created)));
    if post.modified != post.created {
        lines.push(metadata_pieces(indent, PENCIL, "Modified", String::from_str(modified)));
    }
    proof {
        assert(lines_view(lines@) =~= metadata_section(*post, indent as nat, created@, modified@));
    }
    lines
}

/// The lines that show `post` to a person, indented by `indent`: its poster,
/// its title, its description wrapped to the terminal, its objects
/// numbered, its related posts (with `ages[k]` telling how long ago the
/// k-th was created) and its tags, each list headed by its size, and its
/// metadata, with `created` and `modified` as the times are written.
pub fn post_lines(
    post: &PostInfo,
    indent: usize,
    created: &str,
    modified: &str,
    terminal_width: usize,
    ages: &Vec<String>,
) -> (lines: Vec<Vec<Piece>>)
    requires
        indent + 2 <= usize::MAX,
        ages@.len() == post.posts@.len(),
    ensures
        lines_view(lines@) == post_view(
            *post,
            indent as nat,
            created@,
            modified@,
            terminal_width,
            ages@.map_values(|a: String| a@),
        ),
{
    let mut lines = poster_lines(&post.poster, indent);
    add_lines(&mut lines, title_lines(&post.title));
    add_lines(&mut lines, description_lines(&post.description, terminal_width));
    add_lines(&mut lines, object_lines(&post.objects));
    add_lines(&mut lines, related_post_lines(&post.posts, ages));
    add_lines(&mut lines, tag_lines(&post.tags));
    add_lines(&mut lines, metadata_lines(post, indent, created, modified));
    lines
}

/// How a user's preview is shown: the name in bold, then the user's ID
/// indented by `indent`.
pub open spec fn user_preview_view(u: UserPreview, indent: nat) -> Seq<Seq<(Style, Seq<char>)>> {
    seq![seq![(Style::Bold, u.name@)], id_line(indent, u.id)]
}

/// How a tag's preview is shown: the name in bold, then the tag's ID
/// indented by `indent`.
pub open spec fn tag_preview_view(t: TagPreview, indent: nat) -> Seq<Seq<(Style, Seq<char>)>> {
    seq![seq![(Style::Bold, t.name@)], id_line(indent, t.id)]
}

/// How an object's preview is shown: its media type, then its ID indented
/// by `indent`.
pub open spec fn object_preview_view(o: ObjectPreview, indent: nat) -> Seq<Seq<(Style, Seq<char>)>> {
    seq![seq![(Style::Plain, o.media_type@ + "/"@ + o.subtype@)], id_line(indent, o.id)]
}

/// The lines that show a user's preview.
pub fn user_preview_lines(u: &UserPreview, indent: usize) -> (lines: Vec<Vec<Piece>>)
    ensures
        lines_view(lines@) == user_preview_view(*u, indent as nat),
{
    let mut first: Vec<Piece> = Vec::new();
    first.push(Piece { style: Style::Bold, text: u.name.clone() });
    proof {
        assert(pieces_view(first@) =~= seq![(Style::Bold, u.name@)]);
    }
    let mut lines: Vec<Vec<Piece>> = Vec::new();
    lines.push(first);
    lines.push(id_pieces(indent, u.id));
    proof {
        assert(lines_view(lines@) =~= user_preview_view(*u, indent as nat));
    }
    lines
}

/// The lines that show a tag's preview.
pub fn tag_preview_lines(t: &TagPreview, indent: usize) -> (lines: Vec<Vec<Piece>>)
    ensures
        lines_view(lines@) == tag_preview_view(*t, indent as nat),
{
    let mut first: Vec<Piece> = Vec::new();
    first.push(Piece { style: Style::Bold, text: t.name.clone() });
    proof {
        assert(pieces_view(first@) =~= seq![(Style::Bold, t.name@)]);
    }
    let mut lines: Vec<Vec<Piece>> = Vec::new();
    lines.push(first);
    lines.push(id_pieces(indent, t.id));
    proof {
        assert(lines_view(lines@) =~= tag_preview_view(*t, indent as nat));
    }
    lines
}

/// The lines that show an object's preview.
pub fn object_preview_lines(o: &ObjectPreview, indent: usize) -> (lines: Vec<Vec<Piece>>)
    ensures
        lines_view(lines@) == object_preview_view(*o, indent as nat),
{
    let mut first: Vec<Piece> = Vec::new();
    first.push(Piece { style: Style::Plain, text: o.media_type.clone().concat("/").concat(o.subtype.as_str()) });
    proof {
        assert(pieces_view(first@) =~= seq![(Style::Plain, o.media_type@ + "/"@ + o.subtype@)]);
    }
    let mut lines: Vec<Vec<Piece>> = Vec::new();
    lines.push(first);
    lines.push(id_pieces(indent, o.id));
    proof {
        assert(lines_view(lines@) =~= object_preview_view(*o, indent as nat));
    }
    lines
}

/// Who wrote a comment, as its thread shows it: the user's name, or
/// `[deleted]` when the user is gone.
pub open spec fn author_text(user: Option<UserPreview>) -> Seq<char> {
    match user {
        Some(u) => u.name@,
        None => "[deleted]"@,
    }
}

/// The lines of a comment's text at `level`: wrapped to the terminal (at
/// most `MAX_TEXT_WIDTH`), or a deleted mark for empty text.
pub open spec fn comment_text_view(content: Seq<char>, level: u8, terminal_width: usize) -> Seq<
    Seq<(Style, Seq<char>)>,
> {
    if content.len() == 0 {
        seq![separators(level as nat) + seq![(Style::Destructive, TRASH@ + " Deleted"@)]]
    } else {
        let width = if terminal_width < MAX_TEXT_WIDTH {
            terminal_width
        } else {
            MAX_TEXT_WIDTH
        };
        wrapped_lines(content, width).map_values(|l: Seq<char>| separators(level as nat) + seq![(Style::Plain, l)])
    }
}

/// How a comment shows in its thread: the divider above a reply, the
/// comment's ID, its author and `age` (how long ago it was written), then
/// its text, each line behind the bars of its level.
pub open spec fn comment_view(c: CommentData, age: Seq<char>, terminal_width: usize) -> Seq<Seq<(Style, Seq<char>)>> {
    (if c.level == 0 {
        Seq::empty()
    } else {
        seq![divider_line(c.level)]
    }) + seq![
        separators(c.level as nat) + labelled(POUND, id_text_spec(c.id)),
        separators(c.level as nat) + labelled(ACCOUNT, author_text(c.user)) + seq![(Style::Plain, "  "@)] + labelled(
            CLOCK,
            age,
        ),
    ] + comment_text_view(c.content@, c.level, terminal_width)
}

/// The lines that show a comment in its thread.
pub fn comment_data_lines(c: &CommentData, age: &str, terminal_width: usize) -> (lines: Vec<Vec<Piece>>)
    ensures
        lines_view(lines@) == comment_view(*c, age@, terminal_width),
{
    let mut printer = Printer::new(c.level);
    printer.divider();
    let ghost after_divider = printer.lines();
    let first = MetadataRow::new().push(Icon::new(POUND), id_text(c.id));
    proof {
        assert(first.pieces() =~= labelled(POUND, id_text_spec(c.id)));
    }
    let ghost row1 = separators(c.level as nat) + labelled(POUND, id_text_spec(c.id));
    printer.metadata(first);
    let ghost after_first = printer.lines();
    proof {
        assert(after_first == after_divider.push(row1));
    }
    let author = match &c.user {
        Some(u) => u.name.clone(),
        None => String::from_str("[deleted]"),
    };
    proof {
        assert(author@ == author_text(c.user));
    }
    let named = MetadataRow::new().push(Icon::new(ACCOUNT), author);
    proof {
        assert(named.pieces() =~= labelled(ACCOUNT, author_text(c.user)));
    }
    let second = named.push(Icon::new(CLOCK), String::from_str(age));
    proof {
        assert(second.pieces() =~= labelled(ACCOUNT, author_text(c.user)) + seq![(Style::Plain, "  "@)] + labelled(
            CLOCK,
            age@,
        ));
    }
    let ghost row2 = separators(c.level as nat) + labelled(ACCOUNT, author_text(c.user)) + seq![(Style::Plain, "  "@)]
        + labelled(CLOCK, age@);
    proof {
        assert(separators(c.level as nat) + second.pieces() =~= row2);
    }
    printer.metadata(second);
    let ghost after_rows = printer.lines();
    proof {
        assert(after_rows == after_first.push(row2));
    }
    printer.text(c.content.as_str(), terminal_width);
    proof {
        assert(after_divider =~= (if c.level == 0 {
            Seq::<Seq<(Style, Seq<char>)>>::empty()
        } else {
            seq![divider_line(c.level)]
        }));
        assert(after_rows =~= after_divider + seq![row1, row2]);
        assert(printer.lines() =~= after_rows + comment_text_view(c.content@, c.level, terminal_width));
    }
    printer.into_lines()
}

/// Each related post's entry takes four lines, in the order of the posts,
/// and the k-th entry is the k-th post shown with the k-th age: its third
/// line ends with `ages[k]`.
#[verifier::rlimit(30)]
pub proof fn law_each_post_shows_its_own_age(posts: Seq<PostPreview>, ages: Seq<Seq<char>>, k: int)
    requires
        ages.len() >= posts.len(),
        0 <= k < posts.len(),
    ensures
        post_items(posts, ages).len() == 4 * posts.len(),
        post_items(posts, ages).subrange(4 * k, 4 * k + 4) == post_item(posts[k], ages[k]),
        post_items(posts, ages)[4 * k + 2].last() == (Style::Secondary, ages[k]),
        post_items(posts, ages)[4 * k][3] == preview_title(posts[k].title@)[0],
        posts_section(posts, ages)[4 * k + 3].last() == (Style::Secondary, ages[k]),
    decreases posts.len(),
{
    let n = posts.len() as int;
    let rest = posts.drop_last();
    lemma_post_items_len(rest, ages);
    assert(post_items(posts, ages) == post_items(rest, ages) + post_item(posts.last(), ages[n - 1]));
    if k < n - 1 {
        law_each_post_shows_its_own_age(rest, ages, k);
        assert(rest[k] == posts[k]);
        assert(post_items(posts, ages).subrange(4 * k, 4 * k + 4) =~= post_items(rest, ages).subrange(
            4 * k,
            4 * k + 4,
        ));
    } else {
        assert(post_items(posts, ages).subrange(4 * k, 4 * k + 4) =~= post_item(posts[k], ages[k]));
    }
    let item = post_item(posts[k], ages[k]);
    assert(post_items(posts, ages)[4 * k + 2] == item[2]);
    assert(post_items(posts, ages)[4 * k] == item[0]);
    assert(item[0] == bullet() + preview_title(posts[k].title@));
    assert((bullet() + preview_title(posts[k].title@))[3] == preview_title(posts[k].title@)[0]);
    assert(posts_section(posts, ages) == seq![count_line("Posts"@, posts.len())] + post_items(posts, ages));
    assert(posts_section(posts, ages)[4 * k + 3] == post_items(posts, ages)[4 * k + 2]);
}

proof fn lemma_post_items_len(posts: Seq<PostPreview>, ages: Seq<Seq<char>>)
    ensures
        post_items(posts, ages).len() == 4 * posts.len(),
    decreases posts.len(),
{
    if posts.len() > 0 {
        lemma_post_items_len(posts.drop_last(), ages);
    }
}

} // verus!
