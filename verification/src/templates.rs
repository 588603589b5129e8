//! The files a new project starts with: the C++ `main.cpp` of each
//! example, the Lua script of each example, and the managed Makefile that
//! builds every C/C++ source of a project with the fixed PSPSDK toolchain.
use vstd::prelude::*;
use vstd::string::StringExecFns;
use crate::confine::{
    is_build_char, is_path_char, is_valid_build_path, lemma_build_path_chars,
    lemma_build_path_pieces,
};
use crate::path::{
    file_name, join, last_named, lemma_join_chars, lemma_last_index, lemma_last_named,
    set_extension, split, stem_of, with_extension,
};
use crate::text::{
    chars_of, contains_text, lemma_occurs_in_part, replace_char, replaced, str_eq, strings_view,
};

verus! {

// ---------------------------------------------------------------------------
// C++ sources
// ---------------------------------------------------------------------------
pub const CPP_BODY_CONTROLS: &'static str = r#"    pspDebugScreenPrintf("Utilise les boutons de la PSP.\n");
    while (true) {
        SceCtrlData pad{};
        sceCtrlPeekBufferPositive(&pad, 1);
        pspDebugScreenSetXY(0, 3);
        pspDebugScreenPrintf("X:%s  O:%s  Analogique:%3d,%3d   ",
            pad.Buttons & PSP_CTRL_CROSS ? "oui" : "non",
            pad.Buttons & PSP_CTRL_CIRCLE ? "oui" : "non", pad.Lx, pad.Ly);
        sceDisplayWaitVblankStart();
    }"#;

pub const CPP_BODY_GRAPHICS: &'static str = r#"    sceGuInit();
    sceGuStart(GU_DIRECT, displayList);
    sceGuDrawBuffer(GU_PSM_8888, (void*)0, 512);
    sceGuDispBuffer(480, 272, (void*)0x88000, 512);
    sceGuDepthBuffer((void*)0x110000, 512);
    sceGuFinish(); sceGuSync(0, 0); sceDisplayWaitVblankStart(); sceGuDisplay(GU_TRUE);
    while (true) {
        sceGuStart(GU_DIRECT, displayList);
        sceGuClearColor(0xff301810); sceGuClear(GU_COLOR_BUFFER_BIT);
        sceGuFinish(); sceGuSync(0, 0); sceDisplayWaitVblankStart(); sceGuSwapBuffers();
    }"#;

pub const CPP_BODY_TIMER: &'static str = r#"    u64 tickResolution = sceRtcGetTickResolution();
    u64 previous = 0; sceRtcGetCurrentTick(&previous);
    unsigned frames = 0;
    while (true) {
        u64 current = 0; sceRtcGetCurrentTick(&current);
        float delta = float(current - previous) / float(tickResolution); previous = current;
        pspDebugScreenSetXY(0, 3);
        pspDebugScreenPrintf("Image: %u  delta: %.4f s   ", frames++, delta);
        sceDisplayWaitVblankStart();
    }"#;

pub const CPP_BODY_AUDIO: &'static str = r#"    constexpr int samples = 1024;
    static short pcm[samples * 2];
    for (int index = 0; index < samples; ++index) {
        short value = (index / 32) % 2 ? 9000 : -9000;
        pcm[index * 2] = value;
        pcm[index * 2 + 1] = value;
    }
    int channel = sceAudioChReserve(PSP_AUDIO_NEXT_CHANNEL, samples, PSP_AUDIO_FORMAT_STEREO);
    if (channel < 0) {
        pspDebugScreenPrintf("Impossible de reserver un canal audio.\n");
    } else {
        pspDebugScreenPrintf("Lecture du signal PCM. Appuie sur HOME pour quitter.\n");
        while (true) sceAudioOutputBlocking(channel, PSP_AUDIO_VOLUME_MAX, pcm);
    }"#;

pub const CPP_BODY_FILESYSTEM: &'static str = r#"    const char message[] = "niveau=3\nscore=1200\n";
    SceUID file = sceIoOpen("save.txt", PSP_O_WRONLY | PSP_O_CREAT | PSP_O_TRUNC, 0777);
    if (file >= 0) {
        sceIoWrite(file, message, sizeof(message) - 1);
        sceIoClose(file);
    }
    char loaded[64] = {};
    file = sceIoOpen("save.txt", PSP_O_RDONLY, 0);
    if (file >= 0) {
        sceIoRead(file, loaded, sizeof(loaded) - 1);
        sceIoClose(file);
    }
    pspDebugScreenPrintf("Sauvegarde relue :\n%s\n", loaded);
    while (true) sceDisplayWaitVblankStart();"#;

pub const CPP_BODY_HELLO: &'static str = r#"    pspDebugScreenPrintf("Bonjour depuis PSP Reborn Studio !\n");
    pspDebugScreenPrintf("Ce code fonctionne dans PPSSPP et sur PSP.\n");
    while (true) sceDisplayWaitVblankStart();"#;

pub const CPP_INCLUDES_CONTROLS: &'static str = "#include <pspctrl.h>\n#include <pspdisplay.h>";

pub const CPP_INCLUDES_GRAPHICS: &'static str = "#include <pspdisplay.h>\n#include <pspgu.h>\n\nstatic unsigned int __attribute__((aligned(16))) displayList[262144];";

pub const CPP_INCLUDES_TIMER: &'static str = "#include <pspdisplay.h>\n#include <psprtc.h>";

pub const CPP_INCLUDES_AUDIO: &'static str = "#include <pspaudio.h>";

pub const CPP_INCLUDES_FILESYSTEM: &'static str = "#include <pspdisplay.h>\n#include <pspiofilemgr.h>";

pub const CPP_INCLUDES_HELLO: &'static str = "#include <pspdisplay.h>";

pub const LUA_CONTROLS: &'static str = "x = 20\nwhile true do\n    pad = Controls.read()\n    if pad:left() then x = x - 2 end\n    if pad:right() then x = x + 2 end\n    screen:clear(Color.new(20, 24, 40))\n    screen:fillRect(x, 110, 32, 32, Color.new(130, 90, 255))\n    screen.flip()\n    screen.waitVblankStart()\nend\n";

pub const LUA_IMAGE: &'static str = "image = Image.createEmpty(160, 100)\nimage:clear(Color.new(120, 70, 230))\nwhile true do\n    screen:clear()\n    screen:blit(160, 86, image)\n    screen:print(175, 125, \"Image Lua\", Color.new(255,255,255))\n    screen.flip()\n    screen.waitVblankStart()\nend\n";

pub const LUA_SPRITE: &'static str = "sprite = Image.createEmpty(32, 32)\nsprite:clear(Color.new(130, 90, 255))\nx, y = 220, 120\nwhile true do\n    pad = Controls.read()\n    if pad:left() then x = x - 2 end\n    if pad:right() then x = x + 2 end\n    if pad:up() then y = y - 2 end\n    if pad:down() then y = y + 2 end\n    screen:clear()\n    screen:blit(x, y, sprite)\n    screen.flip()\n    screen.waitVblankStart()\nend\n";

pub const LUA_TIMER: &'static str = "timer = Timer.new()\nwhile true do\n    elapsed = timer:time() / 1000\n    x = 220 + math.sin(elapsed * 2) * 120\n    screen:clear(Color.new(12, 18, 28))\n    screen:fillCircle(x, 136, 18, Color.new(80, 240, 120))\n    screen.flip()\n    screen.waitVblankStart()\nend\n";

pub const LUA_AUDIO: &'static str = "Wav.load(\"assets/sound.wav\", 0)\nWav.play(true, 0)\nwhile true do\n    pad = Controls.read()\n    screen:clear(Color.new(12, 18, 28))\n    screen:print(70, 120, \"CROIX: pause  ROND: reprendre\", Color.new(255,255,255))\n    if pad:cross() then Wav.pause(0) end\n    if pad:circle() then Wav.play(true, 0) end\n    screen.flip()\n    screen.waitVblankStart()\nend\n";

pub const LUA_HELLO: &'static str = "while true do\n    screen:clear(Color.new(24, 18, 62))\n    screen:fillRect(105, 70, 270, 132, Color.new(105, 70, 215))\n    screen:fillRect(125, 90, 230, 92, Color.new(18, 22, 36))\n    screen:fillRect(145, 115, 190, 42, Color.new(145, 105, 255))\n    screen.flip()\n    screen.waitVblankStart()\nend\n";

pub const CPP_HEAD: &'static str = "#include <pspkernel.h>\n#include <pspdebug.h>\n";

pub const CPP_MODULE_START: &'static str = "\n\nPSP_MODULE_INFO(\"";

pub const CPP_MODULE_END: &'static str = "\", PSP_MODULE_USER, 1, 0);\nPSP_MAIN_THREAD_ATTR(PSP_THREAD_ATTR_USER | PSP_THREAD_ATTR_VFPU);\n\nint main() {\n    pspDebugScreenInit();\n";

pub const CPP_TAIL: &'static str = "\n    return 0;\n}\n";

/// The body of `main` for a C++ template (any unknown template gets the
/// greeting).
pub open spec fn cpp_body(t: Seq<char>) -> Seq<char> {
    if t == "controls"@ {
        CPP_BODY_CONTROLS@
    } else if t == "graphics"@ {
        CPP_BODY_GRAPHICS@
    } else if t == "timer"@ {
        CPP_BODY_TIMER@
    } else if t == "audio"@ {
        CPP_BODY_AUDIO@
    } else if t == "filesystem"@ {
        CPP_BODY_FILESYSTEM@
    } else {
        CPP_BODY_HELLO@
    }
}

/// The headers (and static data) a C++ template needs.
pub open spec fn cpp_includes(t: Seq<char>) -> Seq<char> {
    if t == "controls"@ {
        CPP_INCLUDES_CONTROLS@
    } else if t == "graphics"@ {
        CPP_INCLUDES_GRAPHICS@
    } else if t == "timer"@ {
        CPP_INCLUDES_TIMER@
    } else if t == "audio"@ {
        CPP_INCLUDES_AUDIO@
    } else if t == "filesystem"@ {
        CPP_INCLUDES_FILESYSTEM@
    } else {
        CPP_INCLUDES_HELLO@
    }
}

/// The whole `main.cpp` of a new C++ project named `name`.
pub open spec fn cpp_source(name: Seq<char>, t: Seq<char>) -> Seq<char> {
    CPP_HEAD@ + cpp_includes(t) + CPP_MODULE_START@ + name + CPP_MODULE_END@ + cpp_body(t)
        + CPP_TAIL@
}

fn cpp_body_of(t: &str) -> (r: &'static str)
    ensures
        r@ == cpp_body(t@),
{
    if str_eq(t, "controls") {
        CPP_BODY_CONTROLS
    } else if str_eq(t, "graphics") {
        CPP_BODY_GRAPHICS
    } else if str_eq(t, "timer") {
        CPP_BODY_TIMER
    } else if str_eq(t, "audio") {
        CPP_BODY_AUDIO
    } else if str_eq(t, "filesystem") {
        CPP_BODY_FILESYSTEM
    } else {
        CPP_BODY_HELLO
    }
}

fn cpp_includes_of(t: &str) -> (r: &'static str)
    ensures
        r@ == cpp_includes(t@),
{
    if str_eq(t, "controls") {
        CPP_INCLUDES_CONTROLS
    } else if str_eq(t, "graphics") {
        CPP_INCLUDES_GRAPHICS
    } else if str_eq(t, "timer") {
        CPP_INCLUDES_TIMER
    } else if str_eq(t, "audio") {
        CPP_INCLUDES_AUDIO
    } else if str_eq(t, "filesystem") {
        CPP_INCLUDES_FILESYSTEM
    } else {
        CPP_INCLUDES_HELLO
    }
}

/// The `src/main.cpp` of a new C++ project.
pub fn cpp_source_template(name: &str, template: &str) -> (r: String)
    ensures
        r@ == cpp_source(name@, template@),
{
    let mut r = String::new();
    r.append(CPP_HEAD);
    r.append(cpp_includes_of(template));
    r.append(CPP_MODULE_START);
    r.append(name);
    r.append(CPP_MODULE_END);
    r.append(cpp_body_of(template));
    r.append(CPP_TAIL);
    r
}

// ---------------------------------------------------------------------------
// Lua scripts
// ---------------------------------------------------------------------------
/// The `script.lua` of a new Lua project (any unknown template gets the
/// drawing example).
pub open spec fn lua_source(t: Seq<char>) -> Seq<char> {
    if t == "controls"@ {
        LUA_CONTROLS@
    } else if t == "image"@ {
        LUA_IMAGE@
    } else if t == "sprite"@ {
        LUA_SPRITE@
    } else if t == "timer"@ {
        LUA_TIMER@
    } else if t == "audio"@ {
        LUA_AUDIO@
    } else {
        LUA_HELLO@
    }
}

pub fn lua_source_template(template: &str) -> (r: &'static str)
    ensures
        r@ == lua_source(template@),
{
    if str_eq(template, "controls") {
        LUA_CONTROLS
    } else if str_eq(template, "image") {
        LUA_IMAGE
    } else if str_eq(template, "sprite") {
        LUA_SPRITE
    } else if str_eq(template, "timer") {
        LUA_TIMER
    } else if str_eq(template, "audio") {
        LUA_AUDIO
    } else {
        LUA_HELLO
    }
}

// ---------------------------------------------------------------------------
// Makefile
// ---------------------------------------------------------------------------
pub const MAKEFILE_HEAD: &'static str = "# Généré par PSP Reborn Studio — les commandes utilisateur sont désactivées.\nTARGET = game\nOBJS = ";

pub const MAKEFILE_FLAGS: &'static str = "\nCFLAGS = -O2 -G0 -Wall -Iinclude -Isrc\nCXXFLAGS = $(CFLAGS) -std=c++17 -fno-exceptions -fno-rtti\nASFLAGS = $(CFLAGS)\n";

pub const MAKEFILE_TARGETS: &'static str = "EXTRA_TARGETS = EBOOT.PBP\nPSP_EBOOT_TITLE = ";

pub const MAKEFILE_TAIL: &'static str = "\nPSPSDK := $(shell psp-config --pspsdk-path)\ninclude $(PSPSDK)/lib/build.mak\n";

pub const LIBS_GRAPHICS: &'static str = "LIBS = -lpspgu\n";

pub const LIBS_TIMER: &'static str = "LIBS = -lpsprtc\n";

pub const LIBS_AUDIO: &'static str = "LIBS = -lpspaudio\n";

/// The extra libraries a C++ template links.
pub open spec fn template_libraries(t: Seq<char>) -> Seq<char> {
    if t == "graphics"@ {
        LIBS_GRAPHICS@
    } else if t == "timer"@ {
        LIBS_TIMER@
    } else if t == "audio"@ {
        LIBS_AUDIO@
    } else {
        Seq::empty()
    }
}

/// The object file a source compiles to: its extension replaced by `o`,
/// with `\` written as `/`.
pub open spec fn object_path(source: Seq<char>) -> Seq<char> {
    replace_char(with_extension(source, "o"@), '\\', '/')
}

/// The object files of `sources`, in order.
pub open spec fn object_paths(sources: Seq<Seq<char>>) -> Seq<Seq<char>> {
    Seq::new(sources.len(), |i: int| object_path(sources[i]))
}

/// The managed Makefile of a project named `name`.
pub open spec fn makefile(name: Seq<char>, t: Seq<char>, sources: Seq<Seq<char>>) -> Seq<char> {
    MAKEFILE_HEAD@ + join(object_paths(sources), ' ') + MAKEFILE_FLAGS@ + template_libraries(t)
        + MAKEFILE_TARGETS@ + name + MAKEFILE_TAIL@
}

fn libraries_of(t: &str) -> (r: &'static str)
    ensures
        r@ == template_libraries(t@),
{
    if str_eq(t, "graphics") {
        LIBS_GRAPHICS
    } else if str_eq(t, "timer") {
        LIBS_TIMER
    } else if str_eq(t, "audio") {
        LIBS_AUDIO
    } else {
        proof {
            reveal_strlit("");
        }
        ""
    }
}

/// The object file of one source.
pub fn object_of(source: &str) -> (r: String)
    ensures
        r@ == object_path(source@),
{
    proof {
        reveal_strlit("o");
    }
    let with_o = set_extension(&chars_of(source), "o");
    replaced(with_o.as_str(), '\\', '/')
}

/// The Makefile that builds `sources` (paths relative to the project).
pub fn makefile_for_sources(name: &str, template: &str, sources: &Vec<String>) -> (r: String)
    ensures
        r@ == makefile(name@, template@, strings_view(sources@)),
{
    let mut objects = String::new();
    let ghost objs = object_paths(strings_view(sources@));
    let mut i: usize = 0;
    while i < sources.len()
        invariant
            i <= sources.len(),
            objs == object_paths(strings_view(sources@)),
            objects@ == join(objs.take(i as int), ' '),
        decreases sources.len() - i,
    {
        let ghost before = objects@;
        if i > 0 {
            objects.push(' ');
        }
        let o = object_of(sources[i].as_str());
        objects.append(o.as_str());
        proof {
            let t = objs.take(i + 1);
            assert(t.drop_last() =~= objs.take(i as int));
            assert(t.last() == object_path(sources@[i as int]@));
            if i == 0 {
                assert(objects@ =~= t[0]);
            } else {
                assert(objects@ =~= join(t.drop_last(), ' ').push(' ') + t.last());
            }
        }
        i = i + 1;
    }
    proof {
        assert(objs.take(sources.len() as int) =~= objs);
    }
    let mut r = String::new();
    r.append(MAKEFILE_HEAD);
    r.append(objects.as_str());
    r.append(MAKEFILE_FLAGS);
    r.append(libraries_of(template));
    r.append(MAKEFILE_TARGETS);
    r.append(name);
    r.append(MAKEFILE_TAIL);
    r
}

/// The Makefile of a new C++ project, which has the single source
/// `src/main.cpp`.
pub fn makefile_template(name: &str, template: &str) -> (r: String)
    ensures
        r@ == makefile(name@, template@, seq!["src/main.cpp"@]),
{
    let mut sources: Vec<String> = Vec::new();
    sources.push(<String as StringExecFns>::from_str("src/main.cpp"));
    proof {
        assert(strings_view(sources@) =~= seq!["src/main.cpp"@]);
    }
    makefile_for_sources(name, template, &sources)
}

// ---------------------------------------------------------------------------
// Laws
// ---------------------------------------------------------------------------
/// The object file of a source make can compile is named with name
/// characters and `/` only.
pub proof fn lemma_object_chars(s: Seq<char>)
    requires
        is_valid_build_path(s),
    ensures
        forall|k: int| 0 <= k < object_path(s).len() ==> is_path_char(#[trigger] object_path(s)[k]),
{
    reveal_strlit("o");
    let w = with_extension(s, "o"@);
    assert forall|k: int| 0 <= k < w.len() implies is_path_char(#[trigger] w[k]) by {
        if file_name(s) is Some {
            let segs = split(s, '/');
            let j = last_named(segs);
            lemma_last_named(segs);
            lemma_build_path_pieces(s);
            let stem = stem_of(segs[j]);
            lemma_last_index(segs[j], '.');
            let pieces = segs.take(j).push(stem);
            assert forall|i: int, m: int| 0 <= i < pieces.len() && 0 <= m < pieces[i].len() implies (|c: char|
                is_path_char(c))(#[trigger] pieces[i][m]) by {
                if i < j {
                    assert(pieces[i] == segs[i]);
                    assert(is_build_char(segs[i][m]));
                } else {
                    assert(stem[m] == segs[j][m]);
                    assert(is_build_char(segs[j][m]));
                }
            }
            lemma_join_chars(pieces, '/', |c: char| is_path_char(c));
            let joined = join(pieces, '/');
            assert(w == joined.push('.') + "o"@);
            if k < joined.len() {
                assert(w[k] == joined[k]);
            } else if k == joined.len() {
                assert(w[k] == '.');
            } else {
                assert(w[k] == 'o');
            }
        } else {
            lemma_build_path_chars(s);
        }
    }
    let o = object_path(s);
    assert forall|k: int| 0 <= k < o.len() implies is_path_char(#[trigger] o[k]) by {
        assert(is_path_char(w[k]));
    }
}

/// The object list of the managed Makefile, for sources that make can
/// compile, holds only name characters, `/`, and the spaces between the
/// objects: no other text from the project reaches make there.
pub proof fn lemma_object_list_is_plain(sources: Seq<Seq<char>>)
    requires
        forall|i: int| 0 <= i < sources.len() ==> is_valid_build_path(#[trigger] sources[i]),
    ensures
        forall|k: int|
            0 <= k < join(object_paths(sources), ' ').len() ==> is_path_char(
                #[trigger] join(object_paths(sources), ' ')[k],
            ) || join(object_paths(sources), ' ')[k] == ' ',
{
    let objs = object_paths(sources);
    assert forall|i: int, m: int| 0 <= i < objs.len() && 0 <= m < objs[i].len() implies (|c: char|
        is_path_char(c))(#[trigger] objs[i][m]) by {
        lemma_object_chars(sources[i]);
        assert(objs[i] == object_path(sources[i]));
    }
    lemma_join_chars(objs, ' ', |c: char| is_path_char(c));
}

/// Every managed Makefile ends by including the build rules of the PSPSDK
/// that `psp-config --pspsdk-path` names.
pub proof fn lemma_makefile_uses_fixed_toolchain(
    name: Seq<char>,
    t: Seq<char>,
    sources: Seq<Seq<char>>,
)
    ensures
        crate::text::ends_with(makefile(name, t, sources), MAKEFILE_TAIL@),
{
    let m = makefile(name, t, sources);
    let front = MAKEFILE_HEAD@ + join(object_paths(sources), ' ') + MAKEFILE_FLAGS@
        + template_libraries(t) + MAKEFILE_TARGETS@ + name;
    assert(m == front + MAKEFILE_TAIL@);
    assert(m.skip(m.len() - MAKEFILE_TAIL@.len()) =~= MAKEFILE_TAIL@);
}

/// Whether `t` names one of the C++ examples besides the greeting.
pub open spec fn is_cpp_example(t: Seq<char>) -> bool {
    t == "controls"@ || t == "graphics"@ || t == "timer"@ || t == "audio"@ || t == "filesystem"@
}

/// Whether `t` names one of the Lua examples besides the drawing.
pub open spec fn is_lua_example(t: Seq<char>) -> bool {
    t == "controls"@ || t == "image"@ || t == "sprite"@ || t == "timer"@ || t == "audio"@
}

/// Any template that is not one of the other C++ examples gets the
/// `hello` source, whose program greets the user.
pub proof fn lemma_unknown_cpp_template_is_hello(name: Seq<char>, t: Seq<char>)
    requires
        !is_cpp_example(t),
    ensures
        cpp_source(name, t) == cpp_source(name, "hello"@),
        cpp_body(t) == CPP_BODY_HELLO@,
        ({
            let g = "Bonjour depuis PSP Reborn Studio !"@;
            exists|i: int|
                0 <= i && i + g.len() <= cpp_source(name, t).len() && #[trigger] cpp_source(
                    name,
                    t,
                ).subrange(i, i + g.len()) == g
        }),
{
    reveal_strlit("hello");
    reveal_strlit("controls");
    reveal_strlit("graphics");
    reveal_strlit("timer");
    reveal_strlit("audio");
    reveal_strlit("filesystem");
    reveal_strlit("Bonjour depuis PSP Reborn Studio !");
    reveal_strlit(
        r#"    pspDebugScreenPrintf("Bonjour depuis PSP Reborn Studio !\n");
    pspDebugScreenPrintf("Ce code fonctionne dans PPSSPP et sur PSP.\n");
    while (true) sceDisplayWaitVblankStart();"#,
    );
    let h = "hello"@;
    assert(h[0] != "controls"@[0] && h[0] != "graphics"@[0] && h[0] != "timer"@[0] && h[0]
        != "audio"@[0] && h[0] != "filesystem"@[0]);
    assert(!is_cpp_example(h));
    assert(cpp_body(h) == CPP_BODY_HELLO@ && cpp_includes(h) == CPP_INCLUDES_HELLO@);
    let g = "Bonjour depuis PSP Reborn Studio !"@;
    let body = CPP_BODY_HELLO@;
    assert(body.subrange(26, 26 + g.len() as int) =~= g);
    let s = cpp_source(name, t);
    let front = CPP_HEAD@ + cpp_includes(t) + CPP_MODULE_START@ + name + CPP_MODULE_END@;
    assert(s == front + body + CPP_TAIL@);
    let i: int = front.len() as int + 26;
    assert(s.subrange(i, i + g.len() as int) =~= body.subrange(26, 26 + g.len() as int));
}

/// Any template that is not one of the other Lua examples gets the `hello`
/// script: one endless drawing loop.
pub proof fn lemma_unknown_lua_template_is_hello(t: Seq<char>)
    requires
        !is_lua_example(t),
    ensures
        lua_source(t) == lua_source("hello"@),
        lua_source(t) == LUA_HELLO@,
        crate::text::starts_with(lua_source(t), "while true do\n"@),
        crate::text::ends_with(lua_source(t), "end\n"@),
{
    reveal_strlit("hello");
    reveal_strlit("controls");
    reveal_strlit("image");
    reveal_strlit("sprite");
    reveal_strlit("timer");
    reveal_strlit("audio");
    reveal_strlit("while true do\n");
    reveal_strlit("end\n");
    reveal_strlit(
        "while true do\n    screen:clear(Color.new(24, 18, 62))\n    screen:fillRect(105, 70, 270, 132, Color.new(105, 70, 215))\n    screen:fillRect(125, 90, 230, 92, Color.new(18, 22, 36))\n    screen:fillRect(145, 115, 190, 42, Color.new(145, 105, 255))\n    screen.flip()\n    screen.waitVblankStart()\nend\n",
    );
    let h = "hello"@;
    assert(h[0] != "controls"@[0] && h[0] != "image"@[0] && h[0] != "sprite"@[0] && h[0]
        != "timer"@[0] && h[0] != "audio"@[0]);
    assert(lua_source(h) == LUA_HELLO@);
    let s = LUA_HELLO@;
    assert(s.take(14) =~= "while true do\n"@);
    assert(s.skip(s.len() - 4) =~= "end\n"@);
}

/// The template names are pairwise different words.
proof fn lemma_template_names_differ()
    ensures
        "controls"@ != "graphics"@,
        "controls"@ != "timer"@,
        "controls"@ != "audio"@,
        "controls"@ != "filesystem"@,
        "controls"@ != "image"@,
        "controls"@ != "sprite"@,
        "controls"@ != "hello"@,
        "graphics"@ != "timer"@,
        "graphics"@ != "audio"@,
        "graphics"@ != "filesystem"@,
        "graphics"@ != "image"@,
        "graphics"@ != "sprite"@,
        "graphics"@ != "hello"@,
        "timer"@ != "audio"@,
        "timer"@ != "filesystem"@,
        "timer"@ != "image"@,
        "timer"@ != "sprite"@,
        "timer"@ != "hello"@,
        "audio"@ != "filesystem"@,
        "audio"@ != "image"@,
        "audio"@ != "sprite"@,
        "audio"@ != "hello"@,
        "filesystem"@ != "image"@,
        "filesystem"@ != "sprite"@,
        "filesystem"@ != "hello"@,
        "image"@ != "sprite"@,
        "image"@ != "hello"@,
        "sprite"@ != "hello"@,
{
    reveal_strlit("controls");
    reveal_strlit("graphics");
    reveal_strlit("timer");
    reveal_strlit("audio");
    reveal_strlit("filesystem");
    reveal_strlit("image");
    reveal_strlit("sprite");
    reveal_strlit("hello");
    assert("controls"@[0] == 'c');
    assert("graphics"@[0] == 'g');
    assert("timer"@[0] == 't');
    assert("audio"@[0] == 'a');
    assert("filesystem"@[0] == 'f');
    assert("image"@[0] == 'i');
    assert("sprite"@[0] == 's');
    assert("hello"@[0] == 'h');
}

/// Each C++ example does what it is named for: its `main.cpp` includes the
/// header of the PSP library it uses and calls it (the pad for `controls`,
/// the GU for `graphics`, the clock for `timer`, the audio output for
/// `audio`, the file system for `filesystem`).
pub proof fn lemma_cpp_examples_use_their_libraries(name: Seq<char>)
    ensures
        contains_text(cpp_source(name, "controls"@), "#include <pspctrl.h>"@),
        contains_text(cpp_source(name, "controls"@), "sceCtrlPeekBufferPositive(&pad, 1);"@),
        contains_text(cpp_source(name, "graphics"@), "#include <pspgu.h>"@),
        contains_text(cpp_source(name, "graphics"@), "sceGuInit();"@),
        contains_text(cpp_source(name, "timer"@), "#include <psprtc.h>"@),
        contains_text(cpp_source(name, "timer"@), "sceRtcGetCurrentTick(&current);"@),
        contains_text(cpp_source(name, "audio"@), "#include <pspaudio.h>"@),
        contains_text(cpp_source(name, "audio"@), "sceAudioOutputBlocking(channel, PSP_AUDIO_VOLUME_MAX, pcm);"@),
        contains_text(cpp_source(name, "filesystem"@), "#include <pspiofilemgr.h>"@),
        contains_text(cpp_source(name, "filesystem"@), "sceIoOpen(\"save.txt\", PSP_O_WRONLY | PSP_O_CREAT | PSP_O_TRUNC, 0777);"@),
{
    lemma_template_names_differ();
    reveal_strlit("controls");
    reveal_strlit("graphics");
    reveal_strlit("timer");
    reveal_strlit("audio");
    reveal_strlit("filesystem");
    reveal_strlit("hello");
    {
        reveal_strlit(r#"    pspDebugScreenPrintf("Utilise les boutons de la PSP.\n");
    while (true) {
        SceCtrlData pad{};
        sceCtrlPeekBufferPositive(&pad, 1);
        pspDebugScreenSetXY(0, 3);
        pspDebugScreenPrintf("X:%s  O:%s  Analogique:%3d,%3d   ",
            pad.Buttons & PSP_CTRL_CROSS ? "oui" : "non",
            pad.Buttons & PSP_CTRL_CIRCLE ? "oui" : "non", pad.Lx, pad.Ly);
        sceDisplayWaitVblankStart();
    }"#);
        reveal_strlit("#include <pspctrl.h>\n#include <pspdisplay.h>");
        reveal_strlit("sceCtrlPeekBufferPositive(&pad, 1);");
        reveal_strlit("#include <pspctrl.h>");
        let t = "controls"@;
        assert(cpp_body(t) == CPP_BODY_CONTROLS@ && cpp_includes(t) == CPP_INCLUDES_CONTROLS@);
        let front = CPP_HEAD@ + CPP_INCLUDES_CONTROLS@ + CPP_MODULE_START@ + name + CPP_MODULE_END@;
        assert(cpp_source(name, t) == front + CPP_BODY_CONTROLS@ + CPP_TAIL@);
        assert(CPP_BODY_CONTROLS@.subrange(116int, 116int + 35int) =~= "sceCtrlPeekBufferPositive(&pad, 1);"@);
        lemma_occurs_in_part(front, CPP_BODY_CONTROLS@, CPP_TAIL@, "sceCtrlPeekBufferPositive(&pad, 1);"@, 116);
        let rest = CPP_MODULE_START@ + name + CPP_MODULE_END@ + CPP_BODY_CONTROLS@ + CPP_TAIL@;
        assert(cpp_source(name, t) =~= CPP_HEAD@ + CPP_INCLUDES_CONTROLS@ + rest);
        assert(CPP_INCLUDES_CONTROLS@.subrange(0int, 0int + 20int) =~= "#include <pspctrl.h>"@);
        lemma_occurs_in_part(CPP_HEAD@, CPP_INCLUDES_CONTROLS@, rest, "#include <pspctrl.h>"@, 0);
    }
    {
        reveal_strlit(r#"    sceGuInit();
    sceGuStart(GU_DIRECT, displayList);
    sceGuDrawBuffer(GU_PSM_8888, (void*)0, 512);
    sceGuDispBuffer(480, 272, (void*)0x88000, 512);
    sceGuDepthBuffer((void*)0x110000, 512);
    sceGuFinish(); sceGuSync(0, 0); sceDisplayWaitVblankStart(); sceGuDisplay(GU_TRUE);
    while (true) {
        sceGuStart(GU_DIRECT, displayList);
        sceGuClearColor(0xff301810); sceGuClear(GU_COLOR_BUFFER_BIT);
        sceGuFinish(); sceGuSync(0, 0); sceDisplayWaitVblankStart(); sceGuSwapBuffers();
    }"#);
        reveal_strlit("#include <pspdisplay.h>\n#include <pspgu.h>\n\nstatic unsigned int __attribute__((aligned(16))) displayList[262144];");
        reveal_strlit("sceGuInit();");
        reveal_strlit("#include <pspgu.h>");
        let t = "graphics"@;
        assert(cpp_body(t) == CPP_BODY_GRAPHICS@ && cpp_includes(t) == CPP_INCLUDES_GRAPHICS@);
        let front = CPP_HEAD@ + CPP_INCLUDES_GRAPHICS@ + CPP_MODULE_START@ + name + CPP_MODULE_END@;
        assert(cpp_source(name, t) == front + CPP_BODY_GRAPHICS@ + CPP_TAIL@);
        assert(CPP_BODY_GRAPHICS@.subrange(4int, 4int + 12int) =~= "sceGuInit();"@);
        lemma_occurs_in_part(front, CPP_BODY_GRAPHICS@, CPP_TAIL@, "sceGuInit();"@, 4);
        let rest = CPP_MODULE_START@ + name + CPP_MODULE_END@ + CPP_BODY_GRAPHICS@ + CPP_TAIL@;
        assert(cpp_source(name, t) =~= CPP_HEAD@ + CPP_INCLUDES_GRAPHICS@ + rest);
        assert(CPP_INCLUDES_GRAPHICS@.subrange(24int, 24int + 18int) =~= "#include <pspgu.h>"@);
        lemma_occurs_in_part(CPP_HEAD@, CPP_INCLUDES_GRAPHICS@, rest, "#include <pspgu.h>"@, 24);
    }
    {
        reveal_strlit(r#"    u64 tickResolution = sceRtcGetTickResolution();
    u64 previous = 0; sceRtcGetCurrentTick(&previous);
    unsigned frames = 0;
    while (true) {
        u64 current = 0; sceRtcGetCurrentTick(&current);
        float delta = float(current - previous) / float(tickResolution); previous = current;
        pspDebugScreenSetXY(0, 3);
        pspDebugScreenPrintf("Image: %u  delta: %.4f s   ", frames++, delta);
        sceDisplayWaitVblankStart();
    }"#);
        reveal_strlit("#include <pspdisplay.h>\n#include <psprtc.h>");
        reveal_strlit("sceRtcGetCurrentTick(&current);");
        reveal_strlit("#include <psprtc.h>");
        let t = "timer"@;
        assert(cpp_body(t) == CPP_BODY_TIMER@ && cpp_includes(t) == CPP_INCLUDES_TIMER@);
        let front = CPP_HEAD@ + CPP_INCLUDES_TIMER@ + CPP_MODULE_START@ + name + CPP_MODULE_END@;
        assert(cpp_source(name, t) == front + CPP_BODY_TIMER@ + CPP_TAIL@);
        assert(CPP_BODY_TIMER@.subrange(176int, 176int + 31int) =~= "sceRtcGetCurrentTick(&current);"@);
        lemma_occurs_in_part(front, CPP_BODY_TIMER@, CPP_TAIL@, "sceRtcGetCurrentTick(&current);"@, 176);
        let rest = CPP_MODULE_START@ + name + CPP_MODULE_END@ + CPP_BODY_TIMER@ + CPP_TAIL@;
        assert(cpp_source(name, t) =~= CPP_HEAD@ + CPP_INCLUDES_TIMER@ + rest);
        assert(CPP_INCLUDES_TIMER@.subrange(24int, 24int + 19int) =~= "#include <psprtc.h>"@);
        lemma_occurs_in_part(CPP_HEAD@, CPP_INCLUDES_TIMER@, rest, "#include <psprtc.h>"@, 24);
    }
    {
        reveal_strlit(r#"    constexpr int samples = 1024;
    static short pcm[samples * 2];
    for (int index = 0; index < samples; ++index) {
        short value = (index / 32) % 2 ? 9000 : -9000;
        pcm[index * 2] = value;
        pcm[index * 2 + 1] = value;
    }
    int channel = sceAudioChReserve(PSP_AUDIO_NEXT_CHANNEL, samples, PSP_AUDIO_FORMAT_STEREO);
    if (channel < 0) {
        pspDebugScreenPrintf("Impossible de reserver un canal audio.\n");
    } else {
        pspDebugScreenPrintf("Lecture du signal PCM. Appuie sur HOME pour quitter.\n");
        while (true) sceAudioOutputBlocking(channel, PSP_AUDIO_VOLUME_MAX, pcm);
    }"#);
        reveal_strlit("#include <pspaudio.h>");
        reveal_strlit("sceAudioOutputBlocking(channel, PSP_AUDIO_VOLUME_MAX, pcm);");
        reveal_strlit("#include <pspaudio.h>");
        let t = "audio"@;
        assert(cpp_body(t) == CPP_BODY_AUDIO@ && cpp_includes(t) == CPP_INCLUDES_AUDIO@);
        let front = CPP_HEAD@ + CPP_INCLUDES_AUDIO@ + CPP_MODULE_START@ + name + CPP_MODULE_END@;
        assert(cpp_source(name, t) == front + CPP_BODY_AUDIO@ + CPP_TAIL@);
        assert(CPP_BODY_AUDIO@.subrange(564int, 564int + 59int) =~= "sceAudioOutputBlocking(channel, PSP_AUDIO_VOLUME_MAX, pcm);"@);
        lemma_occurs_in_part(front, CPP_BODY_AUDIO@, CPP_TAIL@, "sceAudioOutputBlocking(channel, PSP_AUDIO_VOLUME_MAX, pcm);"@, 564);
        let rest = CPP_MODULE_START@ + name + CPP_MODULE_END@ + CPP_BODY_AUDIO@ + CPP_TAIL@;
        assert(cpp_source(name, t) =~= CPP_HEAD@ + CPP_INCLUDES_AUDIO@ + rest);
        assert(CPP_INCLUDES_AUDIO@.subrange(0int, 0int + 21int) =~= "#include <pspaudio.h>"@);
        lemma_occurs_in_part(CPP_HEAD@, CPP_INCLUDES_AUDIO@, rest, "#include <pspaudio.h>"@, 0);
    }
    {
        reveal_strlit(r#"    const char message[] = "niveau=3\nscore=1200\n";
    SceUID file = sceIoOpen("save.txt", PSP_O_WRONLY | PSP_O_CREAT | PSP_O_TRUNC, 0777);
    if (file >= 0) {
        sceIoWrite(file, message, sizeof(message) - 1);
        sceIoClose(file);
    }
    char loaded[64] = {};
    file = sceIoOpen("save.txt", PSP_O_RDONLY, 0);
    if (file >= 0) {
        sceIoRead(file, loaded, sizeof(loaded) - 1);
        sceIoClose(file);
    }
    pspDebugScreenPrintf("Sauvegarde relue :\n%s\n", loaded);
    while (true) sceDisplayWaitVblankStart();"#);
        reveal_strlit("#include <pspdisplay.h>\n#include <pspiofilemgr.h>");
        reveal_strlit("sceIoOpen(\"save.txt\", PSP_O_WRONLY | PSP_O_CREAT | PSP_O_TRUNC, 0777);");
        reveal_strlit("#include <pspiofilemgr.h>");
        let t = "filesystem"@;
        assert(cpp_body(t) == CPP_BODY_FILESYSTEM@ && cpp_includes(t) == CPP_INCLUDES_FILESYSTEM@);
        let front = CPP_HEAD@ + CPP_INCLUDES_FILESYSTEM@ + CPP_MODULE_START@ + name + CPP_MODULE_END@;
        assert(cpp_source(name, t) == front + CPP_BODY_FILESYSTEM@ + CPP_TAIL@);
        assert(CPP_BODY_FILESYSTEM@.subrange(71int, 71int + 70int) =~= "sceIoOpen(\"save.txt\", PSP_O_WRONLY | PSP_O_CREAT | PSP_O_TRUNC, 0777);"@);
        lemma_occurs_in_part(front, CPP_BODY_FILESYSTEM@, CPP_TAIL@, "sceIoOpen(\"save.txt\", PSP_O_WRONLY | PSP_O_CREAT | PSP_O_TRUNC, 0777);"@, 71);
        let rest = CPP_MODULE_START@ + name + CPP_MODULE_END@ + CPP_BODY_FILESYSTEM@ + CPP_TAIL@;
        assert(cpp_source(name, t) =~= CPP_HEAD@ + CPP_INCLUDES_FILESYSTEM@ + rest);
        assert(CPP_INCLUDES_FILESYSTEM@.subrange(24int, 24int + 25int) =~= "#include <pspiofilemgr.h>"@);
        lemma_occurs_in_part(CPP_HEAD@, CPP_INCLUDES_FILESYSTEM@, rest, "#include <pspiofilemgr.h>"@, 24);
    }
}

/// Each Lua example does what it is named for: `controls` moves a square
/// with the pad, `image` and `sprite` build their images, `timer` starts a
/// timer, and `audio` loads the sound the project ships with.
pub proof fn lemma_lua_examples_do_their_part()
    ensures
        contains_text(lua_source("controls"@), "screen:fillRect(x, 110, 32, 32, Color.new(130, 90, 255))"@),
        contains_text(lua_source("image"@), "image = Image.createEmpty(160, 100)"@),
        contains_text(lua_source("sprite"@), "sprite = Image.createEmpty(32, 32)"@),
        contains_text(lua_source("timer"@), "timer = Timer.new()"@),
        contains_text(lua_source("audio"@), "Wav.load(\"assets/sound.wav\", 0)"@),
{
    lemma_template_names_differ();
    reveal_strlit("controls");
    reveal_strlit("image");
    reveal_strlit("sprite");
    reveal_strlit("timer");
    reveal_strlit("audio");
    reveal_strlit("hello");
    {
        reveal_strlit("x = 20\nwhile true do\n    pad = Controls.read()\n    if pad:left() then x = x - 2 end\n    if pad:right() then x = x + 2 end\n    screen:clear(Color.new(20, 24, 40))\n    screen:fillRect(x, 110, 32, 32, Color.new(130, 90, 255))\n    screen.flip()\n    screen.waitVblankStart()\nend\n");
        reveal_strlit("screen:fillRect(x, 110, 32, 32, Color.new(130, 90, 255))");
        assert(lua_source("controls"@) == LUA_CONTROLS@);
        assert(LUA_CONTROLS@.subrange(166int, 166int + 56int) =~= "screen:fillRect(x, 110, 32, 32, Color.new(130, 90, 255))"@);
        assert(LUA_CONTROLS@ =~= Seq::<char>::empty() + LUA_CONTROLS@ + Seq::<char>::empty());
        lemma_occurs_in_part(Seq::empty(), LUA_CONTROLS@, Seq::empty(), "screen:fillRect(x, 110, 32, 32, Color.new(130, 90, 255))"@, 166);
    }
    {
        reveal_strlit("image = Image.createEmpty(160, 100)\nimage:clear(Color.new(120, 70, 230))\nwhile true do\n    screen:clear()\n    screen:blit(160, 86, image)\n    screen:print(175, 125, \"Image Lua\", Color.new(255,255,255))\n    screen.flip()\n    screen.waitVblankStart()\nend\n");
        reveal_strlit("image = Image.createEmpty(160, 100)");
        assert(lua_source("image"@) == LUA_IMAGE@);
        assert(LUA_IMAGE@.subrange(0int, 0int + 35int) =~= "image = Image.createEmpty(160, 100)"@);
        assert(LUA_IMAGE@ =~= Seq::<char>::empty() + LUA_IMAGE@ + Seq::<char>::empty());
        lemma_occurs_in_part(Seq::empty(), LUA_IMAGE@, Seq::empty(), "image = Image.createEmpty(160, 100)"@, 0);
    }
    {
        reveal_strlit("sprite = Image.createEmpty(32, 32)\nsprite:clear(Color.new(130, 90, 255))\nx, y = 220, 120\nwhile true do\n    pad = Controls.read()\n    if pad:left() then x = x - 2 end\n    if pad:right() then x = x + 2 end\n    if pad:up() then y = y - 2 end\n    if pad:down() then y = y + 2 end\n    screen:clear()\n    screen:blit(x, y, sprite)\n    screen.flip()\n    screen.waitVblankStart()\nend\n");
        reveal_strlit("sprite = Image.createEmpty(32, 32)");
        assert(lua_source("sprite"@) == LUA_SPRITE@);
        assert(LUA_SPRITE@.subrange(0int, 0int + 34int) =~= "sprite = Image.createEmpty(32, 32)"@);
        assert(LUA_SPRITE@ =~= Seq::<char>::empty() + LUA_SPRITE@ + Seq::<char>::empty());
        lemma_occurs_in_part(Seq::empty(), LUA_SPRITE@, Seq::empty(), "sprite = Image.createEmpty(32, 32)"@, 0);
    }
    {
        reveal_strlit("timer = Timer.new()\nwhile true do\n    elapsed = timer:time() / 1000\n    x = 220 + math.sin(elapsed * 2) * 120\n    screen:clear(Color.new(12, 18, 28))\n    screen:fillCircle(x, 136, 18, Color.new(80, 240, 120))\n    screen.flip()\n    screen.waitVblankStart()\nend\n");
        reveal_strlit("timer = Timer.new()");
        assert(lua_source("timer"@) == LUA_TIMER@);
        assert(LUA_TIMER@.subrange(0int, 0int + 19int) =~= "timer = Timer.new()"@);
        assert(LUA_TIMER@ =~= Seq::<char>::empty() + LUA_TIMER@ + Seq::<char>::empty());
        lemma_occurs_in_part(Seq::empty(), LUA_TIMER@, Seq::empty(), "timer = Timer.new()"@, 0);
    }
    {
        reveal_strlit("Wav.load(\"assets/sound.wav\", 0)\nWav.play(true, 0)\nwhile true do\n    pad = Controls.read()\n    screen:clear(Color.new(12, 18, 28))\n    screen:print(70, 120, \"CROIX: pause  ROND: reprendre\", Color.new(255,255,255))\n    if pad:cross() then Wav.pause(0) end\n    if pad:circle() then Wav.play(true, 0) end\n    screen.flip()\n    screen.waitVblankStart()\nend\n");
        reveal_strlit("Wav.load(\"assets/sound.wav\", 0)");
        assert(lua_source("audio"@) == LUA_AUDIO@);
        assert(LUA_AUDIO@.subrange(0int, 0int + 31int) =~= "Wav.load(\"assets/sound.wav\", 0)"@);
        assert(LUA_AUDIO@ =~= Seq::<char>::empty() + LUA_AUDIO@ + Seq::<char>::empty());
        lemma_occurs_in_part(Seq::empty(), LUA_AUDIO@, Seq::empty(), "Wav.load(\"assets/sound.wav\", 0)"@, 0);
    }
}

/// The examples that call a PSP library link it: the Makefile of
/// `graphics` links `-lpspgu`, that of `timer` `-lpsprtc` and that of
/// `audio` `-lpspaudio`, each on the line right before the extra targets;
/// the Makefile of any other template links no extra library.
pub proof fn lemma_examples_link_their_libraries(
    name: Seq<char>,
    t: Seq<char>,
    sources: Seq<Seq<char>>,
)
    ensures
        contains_text(makefile(name, "graphics"@, sources), "LIBS = -lpspgu\nEXTRA_TARGETS = EBOOT.PBP\n"@),
        contains_text(makefile(name, "timer"@, sources), "LIBS = -lpsprtc\nEXTRA_TARGETS = EBOOT.PBP\n"@),
        contains_text(makefile(name, "audio"@, sources), "LIBS = -lpspaudio\nEXTRA_TARGETS = EBOOT.PBP\n"@),
        !(t == "graphics"@ || t == "timer"@ || t == "audio"@) ==> contains_text(
            makefile(name, t, sources),
            "ASFLAGS = $(CFLAGS)\nEXTRA_TARGETS = EBOOT.PBP\n"@,
        ),
{
    lemma_template_names_differ();
    reveal_strlit("graphics");
    reveal_strlit("timer");
    reveal_strlit("audio");
    reveal_strlit("EXTRA_TARGETS = EBOOT.PBP\nPSP_EBOOT_TITLE = ");
    reveal_strlit("\nCFLAGS = -O2 -G0 -Wall -Iinclude -Isrc\nCXXFLAGS = $(CFLAGS) -std=c++17 -fno-exceptions -fno-rtti\nASFLAGS = $(CFLAGS)\n");
    {
        reveal_strlit("LIBS = -lpspgu\n");
        reveal_strlit("LIBS = -lpspgu\nEXTRA_TARGETS = EBOOT.PBP\n");
        let x = MAKEFILE_HEAD@ + join(object_paths(sources), ' ') + MAKEFILE_FLAGS@;
        let y = LIBS_GRAPHICS@ + MAKEFILE_TARGETS@;
        assert(template_libraries("graphics"@) == LIBS_GRAPHICS@);
        assert(makefile(name, "graphics"@, sources) =~= x + y + (name + MAKEFILE_TAIL@));
        assert(y.subrange(0int, 41int) =~= "LIBS = -lpspgu\nEXTRA_TARGETS = EBOOT.PBP\n"@);
        lemma_occurs_in_part(x, y, name + MAKEFILE_TAIL@, "LIBS = -lpspgu\nEXTRA_TARGETS = EBOOT.PBP\n"@, 0);
    }
    {
        reveal_strlit("LIBS = -lpsprtc\n");
        reveal_strlit("LIBS = -lpsprtc\nEXTRA_TARGETS = EBOOT.PBP\n");
        let x = MAKEFILE_HEAD@ + join(object_paths(sources), ' ') + MAKEFILE_FLAGS@;
        let y = LIBS_TIMER@ + MAKEFILE_TARGETS@;
        assert(template_libraries("timer"@) == LIBS_TIMER@);
        assert(makefile(name, "timer"@, sources) =~= x + y + (name + MAKEFILE_TAIL@));
        assert(y.subrange(0int, 42int) =~= "LIBS = -lpsprtc\nEXTRA_TARGETS = EBOOT.PBP\n"@);
        lemma_occurs_in_part(x, y, name + MAKEFILE_TAIL@, "LIBS = -lpsprtc\nEXTRA_TARGETS = EBOOT.PBP\n"@, 0);
    }
    {
        reveal_strlit("LIBS = -lpspaudio\n");
        reveal_strlit("LIBS = -lpspaudio\nEXTRA_TARGETS = EBOOT.PBP\n");
        let x = MAKEFILE_HEAD@ + join(object_paths(sources), ' ') + MAKEFILE_FLAGS@;
        let y = LIBS_AUDIO@ + MAKEFILE_TARGETS@;
        assert(template_libraries("audio"@) == LIBS_AUDIO@);
        assert(makefile(name, "audio"@, sources) =~= x + y + (name + MAKEFILE_TAIL@));
        assert(y.subrange(0int, 44int) =~= "LIBS = -lpspaudio\nEXTRA_TARGETS = EBOOT.PBP\n"@);
        lemma_occurs_in_part(x, y, name + MAKEFILE_TAIL@, "LIBS = -lpspaudio\nEXTRA_TARGETS = EBOOT.PBP\n"@, 0);
    }
    if !(t == "graphics"@ || t == "timer"@ || t == "audio"@) {
        reveal_strlit("ASFLAGS = $(CFLAGS)\nEXTRA_TARGETS = EBOOT.PBP\n");
        let x = MAKEFILE_HEAD@ + join(object_paths(sources), ' ');
        let y = MAKEFILE_FLAGS@ + MAKEFILE_TARGETS@;
        assert(template_libraries(t) =~= Seq::<char>::empty());
        assert(makefile(name, t, sources) =~= x + y + (name + MAKEFILE_TAIL@));
        assert(y.subrange(98int, 98int + 46int) =~= "ASFLAGS = $(CFLAGS)\nEXTRA_TARGETS = EBOOT.PBP\n"@);
        lemma_occurs_in_part(x, y, name + MAKEFILE_TAIL@, "ASFLAGS = $(CFLAGS)\nEXTRA_TARGETS = EBOOT.PBP\n"@, 98);
    }
}

} // verus!
